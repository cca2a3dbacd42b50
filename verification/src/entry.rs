use vstd::prelude::*;
use vstd::string::*;
use crate::agent::{contains_mozlila, empty_agent, opt_view, AgentView};
use crate::cursor::{find, find_from, Patt};
use crate::error::LogError;
use crate::geo::GeoView;
use crate::http::{method_of, version_of, HttpMethod, HttpVersion};
use crate::ip::{canonical_ip, canonicalize_ip, is_ip, is_valid_ip};
use crate::services::ParserServices;
use crate::text::{collapse_request_target, collapse_target, extension_of, extension_of_path,
    lower_of, lowercase, parse_u16, parse_usize, str_eq, u16_of, usize_of};
use crate::urls::{form_pairs_of, join_url_parts, joined_url_of, map_of_pairs, parse_form_pairs,
    parse_url_parts, parsed_url_of, QueryMap, UrlView};

verus! {

/// What chrono parses the fixed-format log timestamp to, in UTC
/// microseconds since the epoch: a function of the text alone.
pub uninterp spec fn ts_micros_of(s: Seq<char>) -> Option<i64>;

/// Relies on `chrono::DateTime::parse_from_str` with the format
/// `%d/%b/%Y:%H:%M:%S %z`, and on `timestamp_micros`: the parsed UTC
/// microsecond timestamp, a function of the text alone.
#[verifier::external_body]
fn parse_log_timestamp(s: &str) -> (r: Option<i64>)
    ensures
        r == ts_micros_of(s@),
{
    chrono::DateTime::parse_from_str(s, "%d/%b/%Y:%H:%M:%S %z")
        .map(|parsed| parsed.timestamp_micros())
        .ok()
}

/// What a microsecond timestamp renders to as UTC text: a function
/// of the value alone.
pub uninterp spec fn utc_string_of(micros: i64) -> Seq<char>;

/// Relies on `chrono::DateTime::from_timestamp_micros` and its display
/// form: the UTC rendering of a microsecond timestamp, with the bare
/// number as fallback for a value outside chrono's range.
#[verifier::external_body]
pub fn render_utc_micros(micros: i64) -> (r: String)
    ensures
        r@ == utc_string_of(micros),
{
    match chrono::DateTime::from_timestamp_micros(micros) {
        Some(dt) => dt.to_string(),
        None => micros.to_string(),
    }
}

/// The per-run configuration: the watermark (only strictly newer
/// records are accepted) and the origin against which request paths
/// are resolved and checked.
pub struct ParseConfig {
    timestamp: i64,
    origin_serialized: String,
    origin_host: Option<String>,
}

impl ParseConfig {
    /// The watermark in UTC microseconds.
    pub closed spec fn watermark(&self) -> i64 {
        self.timestamp
    }

    /// The configured origin, serialized back from its parsed form.
    pub closed spec fn origin_view(&self) -> Seq<char> {
        self.origin_serialized@
    }

    /// The configured origin's host.
    pub closed spec fn host_view(&self) -> Option<Seq<char>> {
        opt_view(self.origin_host)
    }

    /// Build the configuration; fails exactly when the origin does not
    /// parse as a URL.
    pub fn new(timestamp: i64, origin: &str) -> (r: Option<ParseConfig>)
        ensures
            match r {
                Some(c) => {
                    &&& parsed_url_of(origin@) matches Some(u) && c.origin_view()
                        == u.serialized && c.host_view() == u.host
                    &&& c.watermark() == timestamp
                },
                None => parsed_url_of(origin@) is None,
            },
    {
        let parts = match parse_url_parts(origin) {
            Some(p) => p,
            None => return None,
        };
        Some(
            ParseConfig {
                timestamp,
                origin_serialized: parts.serialized,
                origin_host: parts.host,
            },
        )
    }
}

/// The non-enrichment fields of a successfully scanned line.
pub ghost struct EntryCore {
    pub ip: Seq<char>,
    pub identity: Option<Seq<char>>,
    pub user: Option<Seq<char>>,
    pub timestamp: i64,
    pub method: HttpMethod,
    pub path: Seq<char>,
    pub extension: Option<Seq<char>>,
    pub query: Option<Seq<char>>,
    pub parsed_query: Option<Map<Seq<char>, Seq<char>>>,
    pub http_version: HttpVersion,
    pub status_code: u16,
    pub size: usize,
    pub referer: Option<Seq<char>>,
    pub referer_origin: Option<Seq<char>>,
    pub referer_path: Option<Seq<char>>,
    pub referer_query: Option<Seq<char>>,
    pub referer_parsed_query: Option<Map<Seq<char>, Seq<char>>>,
    pub user_agent: Option<Seq<char>>,
}

/// The three-way outcome of scanning one line.
pub ghost enum Outcome {
    /// The line's timestamp is at or below the watermark.
    Filtered,
    /// A classified structural failure, with its reason.
    Bad(Seq<char>),
    /// A successfully scanned record.
    Parsed(EntryCore),
}

/// A dash marks an absent value.
pub open spec fn dash_opt(s: Seq<char>) -> Option<Seq<char>> {
    if s == "-"@ {
        None
    } else {
        Some(s)
    }
}

/// The record assembled once every field has scanned: positions `p1`
/// to `p4` delimit the prefix fields, `p9` to `p11` the trailing ones.
pub open spec fn make_core(
    s: Seq<char>,
    p1: int,
    p2: int,
    p3: int,
    p4: int,
    t: i64,
    m: HttpMethod,
    u: UrlView,
    v: HttpVersion,
    st: u16,
    sz: usize,
    p9: int,
    p10: int,
    p11: int,
) -> EntryCore {
    EntryCore {
        ip: canonical_ip(s.subrange(0, p1)),
        identity: dash_opt(s.subrange(p1 + 1, p2)),
        user: dash_opt(s.subrange(p2 + 1, p3)),
        timestamp: t,
        method: m,
        path: u.path,
        extension: match extension_of(u.path) {
            Some(e) => Some(lower_of(e)),
            None => None,
        },
        query: u.query,
        parsed_query: match u.query {
            Some(q) => Some(map_of_pairs(form_pairs_of(q))),
            None => None,
        },
        http_version: v,
        status_code: st,
        size: sz,
        referer: match parsed_url_of(s.subrange(p9 + 2, p10)) {
            Some(r) => Some(r.serialized),
            None => None,
        },
        referer_origin: match parsed_url_of(s.subrange(p9 + 2, p10)) {
            Some(r) => Some(r.origin),
            None => None,
        },
        referer_path: match parsed_url_of(s.subrange(p9 + 2, p10)) {
            Some(r) => Some(r.path),
            None => None,
        },
        referer_query: match parsed_url_of(s.subrange(p9 + 2, p10)) {
            Some(r) => r.query,
            None => None,
        },
        referer_parsed_query: match parsed_url_of(s.subrange(p9 + 2, p10)) {
            Some(r) => match r.query {
                Some(q) => Some(map_of_pairs(form_pairs_of(q))),
                None => None,
            },
            None => None,
        },
        user_agent: if s.subrange(p10 + 3, p11).len() == 0 {
            None
        } else {
            Some(s.subrange(p10 + 3, p11))
        },
    }
}

/// The request-line half of the grammar, from the HTTP method on.
pub open spec fn parse_request(
    s: Seq<char>,
    origin: Seq<char>,
    host: Option<Seq<char>>,
    p1: int,
    p2: int,
    p3: int,
    p4: int,
    t: i64,
) -> Outcome {
    match find_from(s, p4 + 3, seq![' ']) {
        None => Outcome::Bad("HTTP method not found"@),
        Some(p5) => match method_of(s.subrange(p4 + 3, p5)) {
            None => Outcome::Bad("Invalid HTTP method"@),
            Some(m) => match find_from(s, p5 + 1, " HTTP/"@) {
                None => Outcome::Bad("Path not found"@),
                Some(p6) => match joined_url_of(
                    origin,
                    collapse_target(s.subrange(p5 + 1, p6)),
                ) {
                    None => Outcome::Bad("Path not valid"@),
                    Some(u) => if u.host != host {
                        Outcome::Bad("Path has a different host"@)
                    } else {
                        match find_from(s, p6 + 1, seq!['"']) {
                            None => Outcome::Bad("HTTP version not found"@),
                            Some(p7) => match version_of(s.subrange(p6 + 1, p7)) {
                                None => Outcome::Bad("Invalid HTTP version"@),
                                Some(v) => match find_from(s, p7 + 2, seq![' ']) {
                                    None => Outcome::Bad("Status code not found"@),
                                    Some(p8) => match u16_of(s.subrange(p7 + 2, p8)) {
                                        None => Outcome::Bad("Invalid status code"@),
                                        Some(st) => match find_from(s, p8 + 1, seq![' ']) {
                                            None => Outcome::Bad("Size not found"@),
                                            Some(p9) => match usize_of(
                                                s.subrange(p8 + 1, p9),
                                            ) {
                                                None => Outcome::Bad("Invalid size"@),
                                                Some(sz) => match find_from(
                                                    s,
                                                    p9 + 2,
                                                    seq!['"'],
                                                ) {
                                                    None => Outcome::Bad("Referer not found"@),
                                                    Some(p10) => match find_from(
                                                        s,
                                                        p10 + 3,
                                                        seq!['"'],
                                                    ) {
                                                        None => Outcome::Bad(
                                                            "User agent not found"@,
                                                        ),
                                                        Some(p11) => Outcome::Parsed(
                                                            make_core(
                                                                s,
                                                                p1,
                                                                p2,
                                                                p3,
                                                                p4,
                                                                t,
                                                                m,
                                                                u,
                                                                v,
                                                                st,
                                                                sz,
                                                                p9,
                                                                p10,
                                                                p11,
                                                            ),
                                                        ),
                                                    },
                                                },
                                            },
                                        },
                                    },
                                },
                            },
                        }
                    },
                },
            },
        },
    }
}

/// The outcome of scanning `s` field by field against the combined-log
/// grammar, with watermark `w`, against the origin `origin` whose host
/// is `host`.
pub open spec fn parse_outcome(
    s: Seq<char>,
    w: i64,
    origin: Seq<char>,
    host: Option<Seq<char>>,
) -> Outcome {
    match find_from(s, 0, seq![' ']) {
        None => Outcome::Bad("IP not found"@),
        Some(p1) => if !is_ip(s.subrange(0, p1)) {
            Outcome::Bad("Invalid IP"@)
        } else {
            match find_from(s, p1 + 1, seq![' ']) {
                None => Outcome::Bad("Identity not found"@),
                Some(p2) => match find_from(s, p2 + 1, seq![' ']) {
                    None => Outcome::Bad("User not found"@),
                    Some(p3) => match find_from(s, p3 + 2, seq![']']) {
                        None => Outcome::Bad("Datetime not found"@),
                        Some(p4) => match ts_micros_of(s.subrange(p3 + 2, p4)) {
                            None => Outcome::Bad("Invalid datetime"@),
                            Some(t) => if t <= w {
                                Outcome::Filtered
                            } else {
                                match find_from(s, p4 + 3, seq!['"']) {
                                    None => Outcome::Bad("Request not found"@),
                                    Some(rq) => if rq == p4 + 3 {
                                        Outcome::Bad("Empty request"@)
                                    } else {
                                        parse_request(s, origin, host, p1, p2, p3, p4, t)
                                    },
                                }
                            },
                        },
                    },
                },
            }
        },
    }
}

/// The fully typed, enriched record of one accepted log line.
#[derive(Debug)]
pub struct LogEntry {
    pub line: String,
    pub ip: String,
    pub identity: Option<String>,
    pub user: Option<String>,
    pub timestamp: i64,
    pub method: HttpMethod,
    pub path: String,
    pub extension: Option<String>,
    pub query: Option<String>,
    pub parsed_query: Option<QueryMap>,
    pub http_version: HttpVersion,
    pub status_code: u16,
    pub size: usize,
    pub referer: Option<String>,
    pub referer_origin: Option<String>,
    pub referer_path: Option<String>,
    pub referer_query: Option<String>,
    pub referer_parsed_query: Option<QueryMap>,
    pub user_agent: Option<String>,
    pub browser: Option<String>,
    pub browser_major: Option<u16>,
    pub browser_minor: Option<u16>,
    pub browser_patch: Option<u16>,
    pub browser_patch_minor: Option<u16>,
    pub os: Option<String>,
    pub os_major: Option<u16>,
    pub os_minor: Option<u16>,
    pub os_patch: Option<u16>,
    pub os_patch_minor: Option<u16>,
    pub device: Option<String>,
    pub brand: Option<String>,
    pub model: Option<String>,
    pub country: Option<String>,
    pub continent: Option<String>,
    pub asn: Option<String>,
    pub as_name: Option<String>,
    pub as_domain: Option<String>,
}

/// The agent enrichment fields of an entry, as one view.
pub open spec fn agent_of_entry(e: LogEntry) -> AgentView {
    AgentView {
        browser: opt_view(e.browser),
        browser_major: e.browser_major,
        browser_minor: e.browser_minor,
        browser_patch: e.browser_patch,
        browser_patch_minor: e.browser_patch_minor,
        os: opt_view(e.os),
        os_major: e.os_major,
        os_minor: e.os_minor,
        os_patch: e.os_patch,
        os_patch_minor: e.os_patch_minor,
        device: opt_view(e.device),
        brand: opt_view(e.brand),
        model: opt_view(e.model),
    }
}

/// The location enrichment fields of an entry, as one view.
pub open spec fn geo_of_entry(e: LogEntry) -> GeoView {
    GeoView {
        country: opt_view(e.country),
        continent: opt_view(e.continent),
        asn: opt_view(e.asn),
        as_name: opt_view(e.as_name),
        as_domain: opt_view(e.as_domain),
    }
}

/// The entry's scanned fields match the core `c`.
pub open spec fn entry_matches_core(e: LogEntry, c: EntryCore) -> bool {
    &&& e.ip@ == c.ip
    &&& opt_view(e.identity) == c.identity
    &&& opt_view(e.user) == c.user
    &&& e.timestamp == c.timestamp
    &&& e.method == c.method
    &&& e.path@ == c.path
    &&& opt_view(e.extension) == c.extension
    &&& opt_view(e.query) == c.query
    &&& (match e.parsed_query {
        Some(q) => c.parsed_query matches Some(m) && q@ == m && q.wf(),
        None => c.parsed_query is None,
    })
    &&& e.http_version == c.http_version
    &&& e.status_code == c.status_code
    &&& e.size == c.size
    &&& opt_view(e.referer) == c.referer
    &&& opt_view(e.referer_origin) == c.referer_origin
    &&& opt_view(e.referer_path) == c.referer_path
    &&& opt_view(e.referer_query) == c.referer_query
    &&& (match e.referer_parsed_query {
        Some(q) => c.referer_parsed_query matches Some(m) && q@ == m && q.wf(),
        None => c.referer_parsed_query is None,
    })
    &&& opt_view(e.user_agent) == c.user_agent
}

impl LogEntry {
    /// Scan one line against the grammar, filter it against the
    /// watermark, and enrich the accepted record through the caches.
    #[verifier::rlimit(100)]
    pub fn parse(line: String, services: &mut ParserServices, config: &ParseConfig) -> (r:
        Result<LogEntry, LogError>)
        requires
            old(services).wf(),
        ensures
            final(services).wf(),
            match parse_outcome(line@, config.watermark(), config.origin_view(),
                config.host_view()) {
                Outcome::Filtered => {
                    &&& r matches Err(e) && e.filter_spec() && e.line_view() == line@
                        && e.error_view() == Seq::<char>::empty()
                    &&& final(services).agents_map() == old(services).agents_map()
                    &&& final(services).geos_map() == old(services).geos_map()
                },
                Outcome::Bad(reason) => {
                    &&& r matches Err(e) && !e.filter_spec() && e.line_view() == line@
                        && e.error_view() == reason
                    &&& final(services).agents_map() == old(services).agents_map()
                    &&& final(services).geos_map() == old(services).geos_map()
                },
                Outcome::Parsed(core) => {
                    &&& r matches Ok(entry)
                    &&& entry.line@ == line@
                    &&& entry_matches_core(entry, core)
                    &&& final(services).geos_map().contains_key(core.ip)
                    &&& geo_of_entry(entry) == final(services).geos_map()[core.ip]
                    &&& (match core.user_agent {
                        Some(ua) => {
                            &&& final(services).agents_map().contains_key(ua)
                            &&& agent_of_entry(entry) == final(services).agents_map()[ua]
                            &&& (contains_mozlila(ua) ==> agent_of_entry(entry).device
                                == Some("Spider"@))
                            &&& (old(services).agents_map().contains_key(ua) ==> final(services).agents_map() == old(services).agents_map())
                            &&& (!old(services).agents_map().contains_key(ua) ==> final(services).agents_map() == old(services).agents_map().insert(
                                ua,
                                agent_of_entry(entry),
                            ))
                        },
                        None => {
                            &&& agent_of_entry(entry) == empty_agent()
                            &&& final(services).agents_map() == old(services).agents_map()
                        },
                    })
                    &&& (old(services).geos_map().contains_key(core.ip) ==> final(services).geos_map() == old(services).geos_map())
                    &&& (!old(services).geos_map().contains_key(core.ip) ==> final(services).geos_map() == old(services).geos_map().insert(
                        core.ip,
                        geo_of_entry(entry),
                    ))
                },
            },
    {
        proof {
            reveal_strlit(" HTTP/");
        }
        let space = Patt::Char(' ');
        let quote = Patt::Char('"');
        let bracket = Patt::Char(']');
        let http = Patt::Str(" HTTP/");

        // Client IP
        let (ip, next) = match find(0, &line, &space) {
            Ok(x) => x,
            Err(_) => return Err(LogError::new(line.as_str(), "IP not found")),
        };
        if !is_valid_ip(ip.as_str()) {
            return Err(LogError::new(line.as_str(), "Invalid IP"));
        }
        let ip = canonicalize_ip(ip.as_str());

        // Identity
        let (identity, next2) = match find(next + 1, &line, &space) {
            Ok(x) => x,
            Err(_) => return Err(LogError::new(line.as_str(), "Identity not found")),
        };
        let identity = if str_eq(identity.as_str(), "-") {
            None
        } else {
            Some(identity)
        };

        // User
        let (user, next3) = match find(next2 + 1, &line, &space) {
            Ok(x) => x,
            Err(_) => return Err(LogError::new(line.as_str(), "User not found")),
        };
        let user = if str_eq(user.as_str(), "-") {
            None
        } else {
            Some(user)
        };

        // Timestamp and watermark filter
        let (timestamp_raw, next4) = match find(next3.saturating_add(2), &line, &bracket) {
            Ok(x) => x,
            Err(_) => return Err(LogError::new(line.as_str(), "Datetime not found")),
        };
        let timestamp = match parse_log_timestamp(timestamp_raw.as_str()) {
            Some(t) => t,
            None => return Err(LogError::new(line.as_str(), "Invalid datetime")),
        };
        if timestamp <= config.timestamp {
            return Err(LogError::new_filtered(line.as_str()));
        }

        // Request line must be present and non-empty
        let (_request, rq_end) = match find(next4.saturating_add(3), &line, &quote) {
            Ok(x) => x,
            Err(_) => return Err(LogError::new(line.as_str(), "Request not found")),
        };
        if rq_end == next4.saturating_add(3) {
            return Err(LogError::new(line.as_str(), "Empty request"));
        }

        // Method
        let (method_raw, next5) = match find(next4.saturating_add(3), &line, &space) {
            Ok(x) => x,
            Err(_) => return Err(LogError::new(line.as_str(), "HTTP method not found")),
        };
        let method = match HttpMethod::new(method_raw.as_str()) {
            Ok(m) => m,
            Err(_) => return Err(LogError::new(line.as_str(), "Invalid HTTP method")),
        };

        // Path, query and extension
        let (fullpath, next6) = match find(next5 + 1, &line, &http) {
            Ok(x) => x,
            Err(_) => return Err(LogError::new(line.as_str(), "Path not found")),
        };
        let collapsed = collapse_request_target(fullpath.as_str());
        let url = match join_url_parts(config.origin_serialized.as_str(), collapsed.as_str()) {
            Some(u) => u,
            None => return Err(LogError::new(line.as_str(), "Path not valid")),
        };
        let host_matches: bool = match (&url.host, &config.origin_host) {
            (Some(a), Some(b)) => str_eq(a.as_str(), b.as_str()),
            (None, None) => true,
            _ => false,
        };
        if !host_matches {
            return Err(LogError::new(line.as_str(), "Path has a different host"));
        }
        let path = url.path;
        let query = url.query;
        let parsed_query = match &query {
            Some(q) => {
                let pairs = parse_form_pairs(q.as_str());
                Some(QueryMap::from_pairs(&pairs))
            },
            None => None,
        };
        let extension = match extension_of_path(path.as_str()) {
            Some(e) => Some(lowercase(e.as_str())),
            None => None,
        };

        // HTTP version
        let (version_raw, next7) = match find(next6 + 1, &line, &quote) {
            Ok(x) => x,
            Err(_) => return Err(LogError::new(line.as_str(), "HTTP version not found")),
        };
        let http_version = match HttpVersion::new(version_raw.as_str()) {
            Ok(v) => v,
            Err(_) => return Err(LogError::new(line.as_str(), "Invalid HTTP version")),
        };

        // Status code
        let (status_raw, next8) = match find(next7.saturating_add(2), &line, &space) {
            Ok(x) => x,
            Err(_) => return Err(LogError::new(line.as_str(), "Status code not found")),
        };
        let status_code = match parse_u16(status_raw.as_str()) {
            Some(c) => c,
            None => return Err(LogError::new(line.as_str(), "Invalid status code")),
        };

        // Size
        let (size_raw, next9) = match find(next8 + 1, &line, &space) {
            Ok(x) => x,
            Err(_) => return Err(LogError::new(line.as_str(), "Size not found")),
        };
        let size = match parse_usize(size_raw.as_str()) {
            Some(c) => c,
            None => return Err(LogError::new(line.as_str(), "Invalid size")),
        };

        // Referer: failure here degrades to absent fields
        let (referer_raw, next10) = match find(next9.saturating_add(2), &line, &quote) {
            Ok(x) => x,
            Err(_) => return Err(LogError::new(line.as_str(), "Referer not found")),
        };
        let (referer, referer_origin, referer_path, referer_query, referer_parsed_query) =
            match parse_url_parts(referer_raw.as_str()) {
            Some(u2) => {
                let rq = match &u2.query {
                    Some(q) => {
                        let pairs = parse_form_pairs(q.as_str());
                        Some(QueryMap::from_pairs(&pairs))
                    },
                    None => None,
                };
                (Some(u2.serialized), Some(u2.origin_serialized), Some(u2.path), u2.query, rq)
            },
            None => (None, None, None, None, None),
        };

        // User agent
        let (user_agent_raw, _next11) = match find(next10.saturating_add(3), &line, &quote) {
            Ok(x) => x,
            Err(_) => return Err(LogError::new(line.as_str(), "User agent not found")),
        };
        let user_agent = if user_agent_raw.as_str().unicode_len() == 0 {
            None
        } else {
            Some(user_agent_raw)
        };

        // Agent enrichment through the cache
        let agent = match &user_agent {
            Some(ua) => services.get_agent(ua.as_str()),
            None => crate::agent::Agent::new(),
        };

        // Geolocation enrichment through the cache
        let geolocation = services.get_geolocation(ip.as_str());

        Ok(
            LogEntry {
                line,
                ip,
                identity,
                user,
                timestamp,
                method,
                path,
                extension,
                query,
                parsed_query,
                http_version,
                status_code,
                size,
                referer,
                referer_origin,
                referer_path,
                referer_query,
                referer_parsed_query,
                user_agent,
                browser: agent.browser,
                browser_major: agent.browser_major,
                browser_minor: agent.browser_minor,
                browser_patch: agent.browser_patch,
                browser_patch_minor: agent.browser_patch_minor,
                os: agent.os,
                os_major: agent.os_major,
                os_minor: agent.os_minor,
                os_patch: agent.os_patch,
                os_patch_minor: agent.os_patch_minor,
                device: agent.device,
                brand: agent.brand,
                model: agent.model,
                country: geolocation.country,
                continent: geolocation.continent,
                asn: geolocation.asn,
                as_name: geolocation.as_name,
                as_domain: geolocation.as_domain,
            },
        )
    }
}


/// Field-for-field equality of two records, by value.
pub open spec fn entry_fields_eq(a: LogEntry, b: LogEntry) -> bool {
    &&& a.ip@ == b.ip@
    &&& opt_view(a.identity) == opt_view(b.identity)
    &&& opt_view(a.user) == opt_view(b.user)
    &&& a.timestamp == b.timestamp
    &&& a.method == b.method
    &&& a.path@ == b.path@
    &&& opt_view(a.extension) == opt_view(b.extension)
    &&& opt_view(a.query) == opt_view(b.query)
    &&& (match (a.parsed_query, b.parsed_query) {
        (Some(x), Some(y)) => x@ == y@,
        (None, None) => true,
        _ => false,
    })
    &&& a.http_version == b.http_version
    &&& a.status_code == b.status_code
    &&& a.size == b.size
    &&& opt_view(a.referer) == opt_view(b.referer)
    &&& opt_view(a.referer_origin) == opt_view(b.referer_origin)
    &&& opt_view(a.referer_path) == opt_view(b.referer_path)
    &&& opt_view(a.referer_query) == opt_view(b.referer_query)
    &&& (match (a.referer_parsed_query, b.referer_parsed_query) {
        (Some(x), Some(y)) => x@ == y@,
        (None, None) => true,
        _ => false,
    })
    &&& opt_view(a.user_agent) == opt_view(b.user_agent)
    &&& agent_of_entry(a) == agent_of_entry(b)
    &&& geo_of_entry(a) == geo_of_entry(b)
}

/// Determinism: the scanned outcome is a function of the line and the
/// configuration alone, and the enrichment fields are read off the
/// cache, so two parses of the same line against the same
/// configuration and the same cache state yield field-for-field equal
/// records.
pub proof fn lemma_parse_deterministic(
    e1: LogEntry,
    e2: LogEntry,
    c: EntryCore,
    am: Map<Seq<char>, AgentView>,
    gm: Map<Seq<char>, GeoView>,
)
    requires
        entry_matches_core(e1, c),
        entry_matches_core(e2, c),
        gm.contains_key(c.ip),
        geo_of_entry(e1) == gm[c.ip],
        geo_of_entry(e2) == gm[c.ip],
        match c.user_agent {
            Some(ua) => am.contains_key(ua) && agent_of_entry(e1) == am[ua]
                && agent_of_entry(e2) == am[ua],
            None => agent_of_entry(e1) == empty_agent() && agent_of_entry(e2)
                == empty_agent(),
        },
    ensures
        entry_fields_eq(e1, e2),
{
}

/// The watermark filter comes before every field after the timestamp:
/// once the leading fields scan and the timestamp is at or below the
/// watermark, the outcome is filtered, never a structural error,
/// whatever the rest of the line holds.
pub proof fn lemma_watermark_filters(
    s: Seq<char>,
    w: i64,
    origin: Seq<char>,
    host: Option<Seq<char>>,
)
    requires
        find_from(s, 0, seq![' ']) matches Some(p1) && is_ip(s.subrange(0, p1)) && (find_from(
            s,
            p1 + 1,
            seq![' '],
        ) matches Some(p2) && (find_from(s, p2 + 1, seq![' ']) matches Some(p3) && (find_from(
            s,
            p3 + 2,
            seq![']'],
        ) matches Some(p4) && (ts_micros_of(s.subrange(p3 + 2, p4)) matches Some(t) && t
            <= w)))),
    ensures
        parse_outcome(s, w, origin, host) == Outcome::Filtered,
{
}

/// A malformed referer never fails an otherwise valid record: in any
/// parsed outcome the five referer-derived fields are either all
/// present together or, when the referer text does not parse as a URL,
/// all absent together.
pub proof fn lemma_malformed_referer_degrades(
    s: Seq<char>,
    w: i64,
    origin: Seq<char>,
    host: Option<Seq<char>>,
    c: EntryCore,
)
    requires
        parse_outcome(s, w, origin, host) == Outcome::Parsed(c),
    ensures
        c.referer is None ==> {
            &&& c.referer_origin is None
            &&& c.referer_path is None
            &&& c.referer_query is None
            &&& c.referer_parsed_query is None
        },
        c.referer is Some ==> {
            &&& c.referer_origin is Some
            &&& c.referer_path is Some
        },
{
}

} // verus!

