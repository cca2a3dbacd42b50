use vstd::prelude::*;
use vstd::string::*;
use crate::agent::opt_view;
use crate::text::str_eq;
use crate::urls::pairs_view;

verus! {

/// Ghost form of a geolocation record.
pub ghost struct GeoView {
    pub country: Option<Seq<char>>,
    pub continent: Option<Seq<char>>,
    pub asn: Option<Seq<char>>,
    pub as_name: Option<Seq<char>>,
    pub as_domain: Option<Seq<char>>,
}

/// Best-effort location data for one address; every field may be
/// absent.
pub struct GeoLocation {
    pub country: Option<String>,
    pub continent: Option<String>,
    pub asn: Option<String>,
    pub as_name: Option<String>,
    pub as_domain: Option<String>,
}

impl View for GeoLocation {
    type V = GeoView;

    open spec fn view(&self) -> GeoView {
        GeoView {
            country: opt_view(self.country),
            continent: opt_view(self.continent),
            asn: opt_view(self.asn),
            as_name: opt_view(self.as_name),
            as_domain: opt_view(self.as_domain),
        }
    }
}

/// The all-absent location.
pub open spec fn empty_geo() -> GeoView {
    GeoView { country: None, continent: None, asn: None, as_name: None, as_domain: None }
}

/// The first value stored under `k`, if any.
pub open spec fn field_of(pairs: Seq<(Seq<char>, Seq<char>)>, k: Seq<char>) -> Option<
    Seq<char>,
>
    decreases pairs.len(),
{
    if pairs.len() == 0 {
        None
    } else if pairs[0].0 == k {
        Some(pairs[0].1)
    } else {
        field_of(pairs.skip(1), k)
    }
}

/// The location read off a decoded database record: absent fields for
/// a missing record, else the five named fields, each best-effort.
pub open spec fn geo_of_record(rec: Option<Seq<(Seq<char>, Seq<char>)>>) -> GeoView {
    match rec {
        None => empty_geo(),
        Some(p) => GeoView {
            country: field_of(p, "country"@),
            continent: field_of(p, "continent"@),
            asn: field_of(p, "asn"@),
            as_name: field_of(p, "as_name"@),
            as_domain: field_of(p, "as_domain"@),
        },
    }
}

/// The first value stored under `k` in `pairs`, if any.
fn lookup_field(pairs: &Vec<(String, String)>, k: &str) -> (r: Option<String>)
    ensures
        opt_view(r) == field_of(pairs_view(pairs@), k@),
{
    let n = pairs.len();
    let mut i: usize = 0;
    proof {
        assert(pairs_view(pairs@).skip(0) =~= pairs_view(pairs@));
    }
    while i < n
        invariant
            i <= n,
            n == pairs@.len(),
            field_of(pairs_view(pairs@), k@) == field_of(
                pairs_view(pairs@).skip(i as int),
                k@,
            ),
        decreases n - i,
    {
        let ghost t = pairs_view(pairs@).skip(i as int);
        proof {
            assert(t[0] == pairs_view(pairs@)[i as int]);
            assert(t.skip(1) =~= pairs_view(pairs@).skip(i + 1));
        }
        if str_eq(pairs[i].0.as_str(), k) {
            return Some(pairs[i].1.clone());
        }
        i += 1;
    }
    proof {
        assert(pairs_view(pairs@).skip(n as int) =~= Seq::<(Seq<char>, Seq<char>)>::empty());
    }
    None
}

impl GeoLocation {
    /// The all-absent location.
    pub fn new() -> (r: GeoLocation)
        ensures
            r@ == empty_geo(),
    {
        GeoLocation { country: None, continent: None, asn: None, as_name: None, as_domain: None }
    }

    /// The location read off a decoded database record.
    pub fn from_record(rec: &Option<Vec<(String, String)>>) -> (r: GeoLocation)
        ensures
            match rec {
                Some(p) => r@ == geo_of_record(Some(pairs_view(p@))),
                None => r@ == empty_geo(),
            },
    {
        match rec {
            None => GeoLocation::new(),
            Some(p) => GeoLocation {
                country: lookup_field(p, "country"),
                continent: lookup_field(p, "continent"),
                asn: lookup_field(p, "asn"),
                as_name: lookup_field(p, "as_name"),
                as_domain: lookup_field(p, "as_domain"),
            },
        }
    }

    /// A field-for-field copy.
    pub fn duplicate(&self) -> (r: GeoLocation)
        ensures
            r@ == self@,
    {
        GeoLocation {
            country: match &self.country {
                Some(s) => Some(s.clone()),
                None => None,
            },
            continent: match &self.continent {
                Some(s) => Some(s.clone()),
                None => None,
            },
            asn: match &self.asn {
                Some(s) => Some(s.clone()),
                None => None,
            },
            as_name: match &self.as_name {
                Some(s) => Some(s.clone()),
                None => None,
            },
            as_domain: match &self.as_domain {
                Some(s) => Some(s.clone()),
                None => None,
            },
        }
    }
}

} // verus!
