//! JSON decoding of plain values through `serde_json`.
use vstd::prelude::*;

use crate::vuln::{CveSource, CveSourceView};

verus! {

/// What `serde_json::from_str::<Vec<String>>` decodes from a text, when it
/// succeeds.
pub uninterp spec fn json_string_list(text: Seq<char>) -> Option<Seq<Seq<char>>>;

/// What `serde_json::from_str::<Vec<u16>>` decodes from a text, when it
/// succeeds.
pub uninterp spec fn json_port_list(text: Seq<char>) -> Option<Seq<u16>>;

/// What `serde_json::from_str` decodes from a text as a map from strings to
/// strings, as its entries in ascending key order, when it succeeds.
pub uninterp spec fn json_string_map(text: Seq<char>) -> Option<Seq<(Seq<char>, Seq<char>)>>;

/// `serde_json::from_str::<Vec<String>>`: `Some` holds the named decoding of
/// the text, `None` stands for any decoding error.
#[verifier::external_body]
pub(crate) fn parse_string_list(text: &str) -> (r: Option<Vec<String>>)
    ensures
        match r {
            Some(v) => json_string_list(text@) == Some(v.deep_view()),
            None => json_string_list(text@) is None,
        },
{
    serde_json::from_str::<Vec<String>>(text).ok()
}

/// `serde_json::from_str::<Vec<u16>>`: `Some` holds the named decoding of the
/// text, `None` stands for any decoding error.
#[verifier::external_body]
pub(crate) fn parse_port_list(text: &str) -> (r: Option<Vec<u16>>)
    ensures
        match r {
            Some(v) => json_port_list(text@) == Some(v@),
            None => json_port_list(text@) is None,
        },
{
    serde_json::from_str::<Vec<u16>>(text).ok()
}

/// `serde_json::from_str::<BTreeMap<String, String>>`, handed out as the
/// map's entries in key order: `Some` holds the named decoding of the text,
/// `None` stands for any decoding error.
#[verifier::external_body]
pub(crate) fn parse_string_map(text: &str) -> (r: Option<Vec<(String, String)>>)
    ensures
        match r {
            Some(v) => json_string_map(text@) == Some(v.deep_view()),
            None => json_string_map(text@) is None,
        },
{
    match serde_json::from_str::<std::collections::BTreeMap<String, String>>(text) {
        Ok(m) => Some(m.into_iter().collect()),
        Err(_) => None,
    }
}

/// What the build of the database reads from its JSON source with
/// `serde_json::from_str::<Vec<serde_json::Value>>`, each entry taken as a
/// [`CveSource`], when the text is a JSON array.
pub uninterp spec fn json_cve_sources(text: Seq<char>) -> Option<Seq<CveSourceView>>;

/// `serde_json::from_str::<Vec<serde_json::Value>>`, each value read as a
/// [`CveSource`] (a text field when its key holds a string, a list as the
/// compact JSON of its key's value): `Some` holds the named decoding of the
/// text, `None` stands for any decoding error.
#[verifier::external_body]
pub(crate) fn parse_cve_sources(text: &str) -> (r: Option<Vec<CveSource>>)
    ensures
        match r {
            Some(v) => json_cve_sources(text@) == Some(v@.map_values(|e: CveSource| e@)),
            None => json_cve_sources(text@) is None,
        },
{
    let vs = serde_json::from_str::<Vec<serde_json::Value>>(text).ok()?;
    Some(vs.iter().map(|e| {
        let s = |k: &str| e.get(k).and_then(|v| v.as_str()).map(String::from);
        let j = |k: &str| e.get(k).map(|v| v.to_string());
        CveSource { cve: s("cve"), severity: s("severity"), service: s("service"),
            affected: s("affected"), description: s("description"),
            recommendation: s("recommendation"), banner_json: j("match_banner_contains"),
            ports_json: j("match_ports") }
    }).collect())
}

} // verus!
