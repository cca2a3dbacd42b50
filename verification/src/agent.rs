use vstd::prelude::*;
use vstd::string::*;
use crate::cursor::find_from;
use crate::text::{parse_u16, u16_of};

verus! {

/// Ghost form of a decomposed user agent.
pub ghost struct AgentView {
    pub browser: Option<Seq<char>>,
    pub browser_major: Option<u16>,
    pub browser_minor: Option<u16>,
    pub browser_patch: Option<u16>,
    pub browser_patch_minor: Option<u16>,
    pub os: Option<Seq<char>>,
    pub os_major: Option<u16>,
    pub os_minor: Option<u16>,
    pub os_patch: Option<u16>,
    pub os_patch_minor: Option<u16>,
    pub device: Option<Seq<char>>,
    pub brand: Option<Seq<char>>,
    pub model: Option<Seq<char>>,
}

/// The browser fields handed back by the decomposition service, as
/// plain owned strings.
pub struct RawBrowser {
    pub family: String,
    pub major: Option<String>,
    pub minor: Option<String>,
    pub patch: Option<String>,
    pub patch_minor: Option<String>,
}

/// The operating-system fields handed back by the decomposition
/// service.
pub struct RawOs {
    pub os: String,
    pub major: Option<String>,
    pub minor: Option<String>,
    pub patch: Option<String>,
    pub patch_minor: Option<String>,
}

/// The device fields handed back by the decomposition service.
pub struct RawDevice {
    pub device: String,
    pub brand: Option<String>,
    pub model: Option<String>,
}

/// The view of an optional string.
pub open spec fn opt_view(s: Option<String>) -> Option<Seq<char>> {
    match s {
        Some(x) => Some(x@),
        None => None,
    }
}

/// A version component parsed as a 16-bit number, absent when missing
/// or non-numeric.
pub open spec fn version_part(s: Option<String>) -> Option<u16> {
    match s {
        Some(x) => u16_of(x@),
        None => None,
    }
}

/// A decomposed user agent: browser, operating system and device,
/// each optional, with up to four numeric version components.
pub struct Agent {
    pub browser: Option<String>,
    pub browser_major: Option<u16>,
    pub browser_minor: Option<u16>,
    pub browser_patch: Option<u16>,
    pub browser_patch_minor: Option<u16>,
    pub os: Option<String>,
    pub os_major: Option<u16>,
    pub os_minor: Option<u16>,
    pub os_patch: Option<u16>,
    pub os_patch_minor: Option<u16>,
    pub device: Option<String>,
    pub brand: Option<String>,
    pub model: Option<String>,
}

impl View for Agent {
    type V = AgentView;

    open spec fn view(&self) -> AgentView {
        AgentView {
            browser: opt_view(self.browser),
            browser_major: self.browser_major,
            browser_minor: self.browser_minor,
            browser_patch: self.browser_patch,
            browser_patch_minor: self.browser_patch_minor,
            os: opt_view(self.os),
            os_major: self.os_major,
            os_minor: self.os_minor,
            os_patch: self.os_patch,
            os_patch_minor: self.os_patch_minor,
            device: opt_view(self.device),
            brand: opt_view(self.brand),
            model: opt_view(self.model),
        }
    }
}

/// The all-absent agent.
pub open spec fn empty_agent() -> AgentView {
    AgentView {
        browser: None,
        browser_major: None,
        browser_minor: None,
        browser_patch: None,
        browser_patch_minor: None,
        os: None,
        os_major: None,
        os_minor: None,
        os_patch: None,
        os_patch_minor: None,
        device: None,
        brand: None,
        model: None,
    }
}

/// The agent assembled from the three decomposition results.
pub open spec fn agent_from(
    ua: Option<RawBrowser>,
    os: Option<RawOs>,
    device: Option<RawDevice>,
) -> AgentView {
    let a = empty_agent();
    let b = match ua {
        Some(u) => AgentView {
            browser: Some(u.family@),
            browser_major: version_part(u.major),
            browser_minor: version_part(u.minor),
            browser_patch: version_part(u.patch),
            browser_patch_minor: version_part(u.patch_minor),
            ..a
        },
        None => a,
    };
    let c = match os {
        Some(o) => AgentView {
            os: Some(o.os@),
            os_major: version_part(o.major),
            os_minor: version_part(o.minor),
            os_patch: version_part(o.patch),
            os_patch_minor: version_part(o.patch_minor),
            ..b
        },
        None => b,
    };
    match device {
        Some(d) => AgentView {
            device: Some(d.device@),
            brand: opt_view(d.brand),
            model: opt_view(d.model),
            ..c
        },
        None => c,
    }
}

/// A raw user-agent string carrying the known typosquatted bot marker.
pub open spec fn contains_mozlila(s: Seq<char>) -> bool {
    find_from(s, 0, "Mozlila"@) is Some
}

/// The cache's stored form: the decomposed agent, with the device
/// forced to `Spider` when the raw string carries the bot marker.
pub open spec fn resolved_agent(ua: Seq<char>, decomposed: AgentView) -> AgentView {
    if contains_mozlila(ua) {
        AgentView { device: Some("Spider"@), ..decomposed }
    } else {
        decomposed
    }
}

fn parse_version_part(s: &Option<String>) -> (r: Option<u16>)
    ensures
        r == version_part(*s),
{
    match s {
        Some(x) => parse_u16(x.as_str()),
        None => None,
    }
}

impl Agent {
    /// The all-absent agent.
    pub fn new() -> (r: Agent)
        ensures
            r@ == empty_agent(),
    {
        Agent {
            browser: None,
            browser_major: None,
            browser_minor: None,
            browser_patch: None,
            browser_patch_minor: None,
            os: None,
            os_major: None,
            os_minor: None,
            os_patch: None,
            os_patch_minor: None,
            device: None,
            brand: None,
            model: None,
        }
    }

    /// Assemble an agent from the decomposition service's three
    /// results; version components parse as numbers or stay absent.
    pub fn from(ua: Option<RawBrowser>, os: Option<RawOs>, device: Option<RawDevice>) -> (r:
        Agent)
        ensures
            r@ == agent_from(ua, os, device),
    {
        let mut agent = Agent::new();
        match ua {
            Some(value) => {
                agent.browser_major = parse_version_part(&value.major);
                agent.browser_minor = parse_version_part(&value.minor);
                agent.browser_patch = parse_version_part(&value.patch);
                agent.browser_patch_minor = parse_version_part(&value.patch_minor);
                agent.browser = Some(value.family);
            },
            None => {},
        }
        match os {
            Some(value) => {
                agent.os_major = parse_version_part(&value.major);
                agent.os_minor = parse_version_part(&value.minor);
                agent.os_patch = parse_version_part(&value.patch);
                agent.os_patch_minor = parse_version_part(&value.patch_minor);
                agent.os = Some(value.os);
            },
            None => {},
        }
        match device {
            Some(value) => {
                agent.device = Some(value.device);
                agent.brand = value.brand;
                agent.model = value.model;
            },
            None => {},
        }
        agent
    }

    /// A field-for-field copy.
    pub fn duplicate(&self) -> (r: Agent)
        ensures
            r@ == self@,
    {
        Agent {
            browser: match &self.browser {
                Some(s) => Some(s.clone()),
                None => None,
            },
            browser_major: self.browser_major,
            browser_minor: self.browser_minor,
            browser_patch: self.browser_patch,
            browser_patch_minor: self.browser_patch_minor,
            os: match &self.os {
                Some(s) => Some(s.clone()),
                None => None,
            },
            os_major: self.os_major,
            os_minor: self.os_minor,
            os_patch: self.os_patch,
            os_patch_minor: self.os_patch_minor,
            device: match &self.device {
                Some(s) => Some(s.clone()),
                None => None,
            },
            brand: match &self.brand {
                Some(s) => Some(s.clone()),
                None => None,
            },
            model: match &self.model {
                Some(s) => Some(s.clone()),
                None => None,
            },
        }
    }
}


/// Two distinct raw user-agent strings that the decomposition service
/// maps to the same fields resolve to value-equal agents, provided the
/// bot marker treats them alike; a pair distinguished only by the
/// marker resolves differently, since the marker forces the device
/// family.
pub proof fn lemma_identical_decomposition_equal_agents(
    ua1: Seq<char>,
    ua2: Seq<char>,
    decomposed: AgentView,
)
    requires
        contains_mozlila(ua1) == contains_mozlila(ua2),
    ensures
        resolved_agent(ua1, decomposed) == resolved_agent(ua2, decomposed),
{
}

} // verus!

