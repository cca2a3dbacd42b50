use vstd::prelude::*;
use vstd::string::*;
use crate::agent::{contains_mozlila, resolved_agent, Agent, AgentView, RawBrowser, RawDevice,
    RawOs};
use crate::geo::{GeoLocation, GeoView};
use crate::text::str_eq;

verus! {

#[verifier::external_type_specification]
#[verifier::external_body]
pub struct ExExtractor<'a>(ua_parser::Extractor<'a>);

#[verifier::external_type_specification]
#[verifier::external_body]
pub struct ExUserAgentValueRef<'a>(ua_parser::user_agent::ValueRef<'a>);

#[verifier::external_type_specification]
#[verifier::external_body]
pub struct ExOsValueRef<'a>(ua_parser::os::ValueRef<'a>);

#[verifier::external_type_specification]
#[verifier::external_body]
pub struct ExDeviceValueRef<'a>(ua_parser::device::ValueRef<'a>);

/// The loaded location database. The reader's own type cannot be
/// declared to the verifier (its generic carries a bound the verifier
/// does not know), so this struct holds it opaquely.
#[verifier::external_body]
pub struct IpDatabase {
    reader: maxminddb::Reader<Vec<u8>>,
}

/// Whether the signature database in `yaml` compiles to an extractor:
/// a function of the text alone.
pub uninterp spec fn extractor_builds(yaml: Seq<char>) -> bool;

/// Whether `bytes` is a loadable location database: a function of the
/// bytes alone.
pub uninterp spec fn reader_builds(bytes: Seq<u8>) -> bool;

/// Relies on `serde_yaml::from_str` and `ua_parser::Extractor::try_from`:
/// deserializes the signature database and compiles its regexes.
#[verifier::external_body]
fn build_extractor<'a>(yaml: &'a str) -> (r: Option<ua_parser::Extractor<'a>>)
    ensures
        r is Some <==> extractor_builds(yaml@),
{
    let regexes: ua_parser::Regexes = serde_yaml::from_str(yaml).ok()?;
    ua_parser::Extractor::try_from(regexes).ok()
}

/// Relies on `maxminddb::Reader::from_source`: loads the location
/// database from its bytes.
#[verifier::external_body]
fn reader_from_source(bytes: Vec<u8>) -> (r: Option<IpDatabase>)
    ensures
        r is Some <==> reader_builds(bytes@),
{
    match maxminddb::Reader::from_source(bytes) {
        Ok(reader) => Some(IpDatabase { reader }),
        Err(_) => None,
    }
}

/// Relies on `ua_parser::user_agent::ValueRef`: moves its fields into
/// owned strings.
#[verifier::external_body]
fn raw_browser_of(v: ua_parser::user_agent::ValueRef<'_>) -> RawBrowser {
    RawBrowser {
        family: v.family.into_owned(),
        major: v.major.map(|s| s.to_string()),
        minor: v.minor.map(|s| s.to_string()),
        patch: v.patch.map(|s| s.to_string()),
        patch_minor: v.patch_minor.map(|s| s.to_string()),
    }
}

/// Relies on `ua_parser::os::ValueRef`: moves its fields into owned
/// strings.
#[verifier::external_body]
fn raw_os_of(v: ua_parser::os::ValueRef<'_>) -> RawOs {
    RawOs {
        os: v.os.into_owned(),
        major: v.major.map(|s| s.into_owned()),
        minor: v.minor.map(|s| s.into_owned()),
        patch: v.patch.map(|s| s.into_owned()),
        patch_minor: v.patch_minor.map(|s| s.into_owned()),
    }
}

/// Relies on `ua_parser::device::ValueRef`: moves its fields into
/// owned strings.
#[verifier::external_body]
fn raw_device_of(v: ua_parser::device::ValueRef<'_>) -> RawDevice {
    RawDevice {
        device: v.device.into_owned(),
        brand: v.brand.map(|s| s.into_owned()),
        model: v.model.map(|s| s.into_owned()),
    }
}

/// Relies on `ua_parser::Extractor::extract`: one decomposition of a
/// raw user-agent string against the loaded signature database.
#[verifier::external_body]
fn extract_parts(ex: &ua_parser::Extractor<'_>, ua: &str) -> (Option<RawBrowser>, Option<
    RawOs,
>, Option<RawDevice>) {
    let (u, o, d) = ex.extract(ua);
    (u.map(raw_browser_of), o.map(raw_os_of), d.map(raw_device_of))
}

/// Relies on `maxminddb::Reader::lookup` and `LookupResult::decode`:
/// the database record for the address, decoded as string fields, or
/// nothing on a miss, a malformed address or a malformed record.
#[verifier::external_body]
fn lookup_ip_record(db: &IpDatabase, ip: &str) -> Option<Vec<(String, String)>> {
    let addr = match ip.parse() {
        Ok(a) => a,
        Err(_) => return None,
    };
    let result = match db.reader.lookup(addr) {
        Ok(r) => r,
        Err(_) => return None,
    };
    let record: std::collections::BTreeMap<String, String> = match result.decode() {
        Ok(Some(m)) => m,
        _ => return None,
    };
    Some(record.into_iter().collect())
}

/// The map stored by an association list, later entries winning.
pub open spec fn agent_cache_map(entries: Seq<(String, Agent)>) -> Map<Seq<char>, AgentView>
    decreases entries.len(),
{
    if entries.len() == 0 {
        Map::empty()
    } else {
        agent_cache_map(entries.drop_last()).insert(
            entries.last().0@,
            entries.last().1@,
        )
    }
}

/// The map stored by an association list, later entries winning.
pub open spec fn geo_cache_map(entries: Seq<(String, GeoLocation)>) -> Map<Seq<char>, GeoView>
    decreases entries.len(),
{
    if entries.len() == 0 {
        Map::empty()
    } else {
        geo_cache_map(entries.drop_last()).insert(entries.last().0@, entries.last().1@)
    }
}

proof fn lemma_agent_cache_domain(entries: Seq<(String, Agent)>, k: Seq<char>)
    ensures
        agent_cache_map(entries).contains_key(k) <==> exists|j: int|
            0 <= j < entries.len() && (#[trigger] entries[j]).0@ == k,
    decreases entries.len(),
{
    if entries.len() > 0 {
        lemma_agent_cache_domain(entries.drop_last(), k);
        if entries.last().0@ == k {
            assert((entries[entries.len() - 1]).0@ == k);
        } else if agent_cache_map(entries.drop_last()).contains_key(k) {
            let j = choose|j: int|
                0 <= j < entries.len() - 1 && (#[trigger] entries.drop_last()[j]).0@ == k;
            assert((entries[j]).0@ == k);
        } else if exists|j: int| 0 <= j < entries.len() && (#[trigger] entries[j]).0@ == k {
            let j = choose|j: int| 0 <= j < entries.len() && (#[trigger] entries[j]).0@ == k;
            assert(j < entries.len() - 1 ==> (entries.drop_last()[j]).0@ == k);
        }
    }
}

proof fn lemma_agent_cache_at(entries: Seq<(String, Agent)>, j: int)
    requires
        0 <= j < entries.len(),
        forall|a: int, b: int|
            0 <= a < b < entries.len() ==> (#[trigger] entries[a]).0@ != (
            #[trigger] entries[b]).0@,
    ensures
        agent_cache_map(entries).contains_key(entries[j].0@),
        agent_cache_map(entries)[entries[j].0@] == entries[j].1@,
    decreases entries.len(),
{
    if j == entries.len() - 1 {
    } else {
        lemma_agent_cache_at(entries.drop_last(), j);
        assert(entries.drop_last()[j] == entries[j]);
        assert((entries[j]).0@ != (entries[entries.len() - 1]).0@);
    }
}

proof fn lemma_geo_cache_domain(entries: Seq<(String, GeoLocation)>, k: Seq<char>)
    ensures
        geo_cache_map(entries).contains_key(k) <==> exists|j: int|
            0 <= j < entries.len() && (#[trigger] entries[j]).0@ == k,
    decreases entries.len(),
{
    if entries.len() > 0 {
        lemma_geo_cache_domain(entries.drop_last(), k);
        if entries.last().0@ == k {
            assert((entries[entries.len() - 1]).0@ == k);
        } else if geo_cache_map(entries.drop_last()).contains_key(k) {
            let j = choose|j: int|
                0 <= j < entries.len() - 1 && (#[trigger] entries.drop_last()[j]).0@ == k;
            assert((entries[j]).0@ == k);
        } else if exists|j: int| 0 <= j < entries.len() && (#[trigger] entries[j]).0@ == k {
            let j = choose|j: int| 0 <= j < entries.len() && (#[trigger] entries[j]).0@ == k;
            assert(j < entries.len() - 1 ==> (entries.drop_last()[j]).0@ == k);
        }
    }
}

proof fn lemma_geo_cache_at(entries: Seq<(String, GeoLocation)>, j: int)
    requires
        0 <= j < entries.len(),
        forall|a: int, b: int|
            0 <= a < b < entries.len() ==> (#[trigger] entries[a]).0@ != (
            #[trigger] entries[b]).0@,
    ensures
        geo_cache_map(entries).contains_key(entries[j].0@),
        geo_cache_map(entries)[entries[j].0@] == entries[j].1@,
    decreases entries.len(),
{
    if j == entries.len() - 1 {
    } else {
        lemma_geo_cache_at(entries.drop_last(), j);
        assert(entries.drop_last()[j] == entries[j]);
        assert((entries[j]).0@ != (entries[entries.len() - 1]).0@);
    }
}

/// The stateful collaborator of the parser: the compiled decomposition
/// service, the location database, and one memoizing cache in front of
/// each.
pub struct ParserServices<'a> {
    geolocations: Vec<(String, GeoLocation)>,
    agents: Vec<(String, Agent)>,
    agents_parser: ua_parser::Extractor<'a>,
    ip_reader: IpDatabase,
}

impl<'a> ParserServices<'a> {
    /// The memoized decompositions, by raw user-agent string.
    pub closed spec fn agents_map(&self) -> Map<Seq<char>, AgentView> {
        agent_cache_map(self.agents@)
    }

    /// The memoized locations, by address text.
    pub closed spec fn geos_map(&self) -> Map<Seq<char>, GeoView> {
        geo_cache_map(self.geolocations@)
    }

    /// Cache keys are unique, and every cached agent respects the bot
    /// override: a key carrying the marker maps to a `Spider` device.
    pub closed spec fn wf(&self) -> bool {
        &&& forall|a: int, b: int|
            0 <= a < b < self.agents@.len() ==> (#[trigger] self.agents@[a]).0@ != (
            #[trigger] self.agents@[b]).0@
        &&& forall|a: int, b: int|
            0 <= a < b < self.geolocations@.len() ==> (#[trigger] self.geolocations@[a]).0@
                != (#[trigger] self.geolocations@[b]).0@
        &&& forall|j: int|
            0 <= j < self.agents@.len() ==> (contains_mozlila((#[trigger] self.agents@[j]).0@)
                ==> self.agents@[j].1@.device == Some("Spider"@))
    }

    /// Build the services from the signature database text and the
    /// location database bytes; nothing is memoized yet.
    pub fn new(regexes_yaml: &'a str, ipinfo: Vec<u8>) -> (r: Option<ParserServices<'a>>)
        ensures
            r is Some <==> (extractor_builds(regexes_yaml@) && reader_builds(ipinfo@)),
            match r {
                Some(s) => s.wf() && s.agents_map() == Map::<Seq<char>, AgentView>::empty()
                    && s.geos_map() == Map::<Seq<char>, GeoView>::empty(),
                None => true,
            },
    {
        let agents_parser = match build_extractor(regexes_yaml) {
            Some(x) => x,
            None => return None,
        };
        let ip_reader = match reader_from_source(ipinfo) {
            Some(x) => x,
            None => return None,
        };
        Some(
            ParserServices {
                geolocations: Vec::new(),
                agents: Vec::new(),
                agents_parser,
                ip_reader,
            },
        )
    }

    /// Look up a cached agent.
    fn cached_agent(&self, ua: &str) -> (r: Option<Agent>)
        requires
            self.wf(),
        ensures
            match r {
                Some(a) => self.agents_map().contains_key(ua@) && a@
                    == self.agents_map()[ua@],
                None => !self.agents_map().contains_key(ua@),
            },
    {
        let n = self.agents.len();
        let mut i: usize = 0;
        while i < n
            invariant
                i <= n,
                n == self.agents@.len(),
                self.wf(),
                forall|j: int| 0 <= j < i ==> (#[trigger] self.agents@[j]).0@ != ua@,
            decreases n - i,
        {
            if str_eq(self.agents[i].0.as_str(), ua) {
                proof {
                    lemma_agent_cache_at(self.agents@, i as int);
                }
                return Some(self.agents[i].1.duplicate());
            }
            i += 1;
        }
        proof {
            lemma_agent_cache_domain(self.agents@, ua@);
        }
        None
    }

    /// Look up a cached location.
    fn cached_geo(&self, ip: &str) -> (r: Option<GeoLocation>)
        requires
            self.wf(),
        ensures
            match r {
                Some(g) => self.geos_map().contains_key(ip@) && g@ == self.geos_map()[ip@],
                None => !self.geos_map().contains_key(ip@),
            },
    {
        let n = self.geolocations.len();
        let mut i: usize = 0;
        while i < n
            invariant
                i <= n,
                n == self.geolocations@.len(),
                self.wf(),
                forall|j: int| 0 <= j < i ==> (#[trigger] self.geolocations@[j]).0@ != ip@,
            decreases n - i,
        {
            if str_eq(self.geolocations[i].0.as_str(), ip) {
                proof {
                    lemma_geo_cache_at(self.geolocations@, i as int);
                }
                return Some(self.geolocations[i].1.duplicate());
            }
            i += 1;
        }
        proof {
            lemma_geo_cache_domain(self.geolocations@, ip@);
        }
        None
    }

    /// The decomposition of `user_agent`, memoized per distinct raw
    /// string: on the first occurrence the decomposition service runs
    /// once and the result, after the bot override, is stored; later
    /// occurrences return the stored value and leave the cache as it
    /// is.
    pub fn get_agent(&mut self, user_agent: &str) -> (r: Agent)
        requires
            old(self).wf(),
        ensures
            final(self).wf(),
            final(self).agents_map().contains_key(user_agent@),
            r@ == final(self).agents_map()[user_agent@],
            final(self).geos_map() == old(self).geos_map(),
            old(self).agents_map().contains_key(user_agent@) ==> final(self).agents_map()
                == old(self).agents_map(),
            !old(self).agents_map().contains_key(user_agent@) ==> final(self).agents_map()
                == old(self).agents_map().insert(user_agent@, r@),
            !old(self).agents_map().contains_key(user_agent@) ==> exists|decomposed: AgentView|
                r@ == resolved_agent(user_agent@, decomposed),
            contains_mozlila(user_agent@) ==> r@.device == Some("Spider"@),
    {
        match self.cached_agent(user_agent) {
            Some(a) => {
                proof {
                    lemma_agent_cache_domain(self.agents@, user_agent@);
                    let j = choose|j: int|
                        0 <= j < self.agents@.len() && (#[trigger] self.agents@[j]).0@
                            == user_agent@;
                    if contains_mozlila(user_agent@) {
                        lemma_agent_cache_at(self.agents@, j);
                    }
                }
                a
            },
            None => {
                let (u, o, d) = extract_parts(&self.agents_parser, user_agent);
                let ghost decomposed = crate::agent::agent_from(u, o, d);
                let mut agent = crate::agent::Agent::from(u, o, d);
                let owned_ua = user_agent.to_owned();
                let has_marker = match crate::cursor::find(
                    0,
                    &owned_ua,
                    &crate::cursor::Patt::Str("Mozlila"),
                ) {
                    Ok(_) => true,
                    Err(_) => false,
                };
                if has_marker {
                    agent.device = Some("Spider".to_owned());
                }
                proof {
                    assert(agent@ == resolved_agent(user_agent@, decomposed));
                }
                let r = agent.duplicate();
                let ghost old_entries = self.agents@;
                self.agents.push((owned_ua, agent));
                proof {
                    assert(self.agents@.drop_last() =~= old_entries);
                    assert(self.agents@.last().0@ == user_agent@);
                    assert(agent_cache_map(self.agents@) == agent_cache_map(old_entries).insert(
                        user_agent@,
                        r@,
                    ));
                    assert forall|a: int, b: int|
                        0 <= a < b < self.agents@.len() implies (#[trigger] self.agents@[a]).0@
                        != (#[trigger] self.agents@[b]).0@ by {
                        if b < self.agents@.len() - 1 {
                            assert(old_entries[a] == self.agents@[a]);
                            assert(old_entries[b] == self.agents@[b]);
                        } else {
                            lemma_agent_cache_domain(old_entries, user_agent@);
                        }
                    }
                    assert forall|j: int| 0 <= j < self.agents@.len() implies (contains_mozlila(
                        (#[trigger] self.agents@[j]).0@,
                    ) ==> self.agents@[j].1@.device == Some("Spider"@)) by {
                        if j < self.agents@.len() - 1 {
                            assert(old_entries[j] == self.agents@[j]);
                        }
                    }
                }
                r
            },
        }
    }

    /// The location of `ip`, memoized per distinct address text: on
    /// the first occurrence the database is consulted once and the
    /// result stored; a miss stores the all-absent location.
    pub fn get_geolocation(&mut self, ip: &str) -> (r: GeoLocation)
        requires
            old(self).wf(),
        ensures
            final(self).wf(),
            final(self).geos_map().contains_key(ip@),
            r@ == final(self).geos_map()[ip@],
            final(self).agents_map() == old(self).agents_map(),
            old(self).geos_map().contains_key(ip@) ==> final(self).geos_map() == old(
                self,
            ).geos_map(),
            !old(self).geos_map().contains_key(ip@) ==> final(self).geos_map() == old(
                self,
            ).geos_map().insert(ip@, r@),
    {
        match self.cached_geo(ip) {
            Some(g) => g,
            None => {
                let record = lookup_ip_record(&self.ip_reader, ip);
                let geolocation = GeoLocation::from_record(&record);
                let r = geolocation.duplicate();
                let ghost old_entries = self.geolocations@;
                self.geolocations.push((ip.to_owned(), geolocation));
                proof {
                    assert(self.geolocations@.drop_last() =~= old_entries);
                    assert(self.geolocations@.last().0@ == ip@);
                    assert(geo_cache_map(self.geolocations@) == geo_cache_map(
                        old_entries,
                    ).insert(ip@, r@));
                    assert forall|a: int, b: int|
                        0 <= a < b < self.geolocations@.len() implies (
                    #[trigger] self.geolocations@[a]).0@ != (
                    #[trigger] self.geolocations@[b]).0@ by {
                        if b < self.geolocations@.len() - 1 {
                            assert(old_entries[a] == self.geolocations@[a]);
                            assert(old_entries[b] == self.geolocations@[b]);
                        } else {
                            lemma_geo_cache_domain(old_entries, ip@);
                        }
                    }
                }
                r
            },
        }
    }
}

} // verus!
