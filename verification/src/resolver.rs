//! Metadata resolution.
//!
//! The version-metadata service answers with a JSON array of version
//! descriptors ordered newest-first. The resolver extracts the `url` field
//! of element 0 — the latest installer — and rejects a body that is not an
//! array, an empty array, and a first element without a string `url`.

use vstd::prelude::*;

verus! {

/// One element of the metadata array: its `url` field where that field is
/// present and a string, `None` otherwise.
pub struct MetaEntry {
    pub url: Option<String>,
}

/// Why resolution failed, each variant tied to the body that provokes it.
#[derive(Clone, Copy, Debug, PartialEq, Eq, Structural)]
pub enum ResolveError {
    /// The body is not a JSON array.
    NotAnArray,
    /// The body is a JSON array with no elements.
    EmptyArray,
    /// Element 0 of the array has no `url` field that is a string.
    MissingUrl,
}

/// What the metadata body parses to: `None` when it is not a JSON array,
/// otherwise one element per array element — the `url` field where that
/// field is a string, `None` where it is absent or of another type.
pub uninterp spec fn parsed_meta(body: Seq<char>) -> Option<Seq<Option<Seq<char>>>>;

pub open spec fn entry_model(e: MetaEntry) -> Option<Seq<char>> {
    match e.url {
        Some(u) => Some(u@),
        None => None,
    }
}

pub open spec fn entries_model(v: Seq<MetaEntry>) -> Seq<Option<Seq<char>>> {
    v.map_values(|e: MetaEntry| entry_model(e))
}

/// Relies on serde_json::from_str and serde_json::Value: parses the body as
/// JSON and hands back, for each element of the top-level array, the `url`
/// field where it is a string; `None` where the body is no JSON array.
#[verifier::external_body]
fn parse_metadata(body: &str) -> (r: Option<Vec<MetaEntry>>)
    ensures
        match (r, parsed_meta(body@)) {
            (Some(v), Some(m)) => entries_model(v@) == m,
            (None, None) => true,
            _ => false,
        },
{
    match serde_json::from_str::<serde_json::Value>(body) {
        Ok(serde_json::Value::Array(items)) => Some(
            items
                .iter()
                .map(
                    |item| MetaEntry {
                        url: item.get("url").and_then(|u| u.as_str()).map(|s| s.to_string()),
                    },
                )
                .collect(),
        ),
        _ => None,
    }
}

/// What the resolver answers for a parsed metadata array: the `url` of
/// element 0, or the error the array earns.
pub open spec fn latest_url(m: Seq<Option<Seq<char>>>) -> Result<Seq<char>, ResolveError> {
    if m.len() == 0 {
        Err(ResolveError::EmptyArray)
    } else {
        match m[0] {
            Some(u) => Ok(u),
            None => Err(ResolveError::MissingUrl),
        }
    }
}

/// The `url` of the newest descriptor: element 0 of the parsed array.
/// Later elements never matter.
pub fn resolve_from_entries(entries: &Vec<MetaEntry>) -> (r: Result<String, ResolveError>)
    ensures
        match (r, latest_url(entries_model(entries@))) {
            (Ok(u), Ok(su)) => u@ == su,
            (Err(e), Err(se)) => e == se,
            _ => false,
        },
{
    if entries.len() == 0 {
        Err(ResolveError::EmptyArray)
    } else {
        proof {
            assert(entries_model(entries@)[0] == entry_model(entries@[0]));
        }
        match &entries[0].url {
            Some(u) => Ok(u.clone()),
            None => Err(ResolveError::MissingUrl),
        }
    }
}

/// Metadata Resolver: the download URL of the latest installer named by the
/// metadata body, i.e. the `url` of element 0 of the body's array. Fails —
/// and the pipeline downloads nothing — when the body is no JSON array,
/// when the array is empty, and when element 0 lacks a string `url`.
pub fn resolve_latest_installer_url(body: &str) -> (r: Result<String, ResolveError>)
    ensures
        match (r, parsed_meta(body@)) {
            (Err(ResolveError::NotAnArray), None) => true,
            (Ok(u), Some(m)) => latest_url(m) == Ok::<Seq<char>, ResolveError>(u@),
            (Err(e), Some(m)) => e != ResolveError::NotAnArray && latest_url(m) == Err::<
                Seq<char>,
                ResolveError,
            >(e),
            _ => false,
        },
{
    match parse_metadata(body) {
        None => Err(ResolveError::NotAnArray),
        Some(entries) => resolve_from_entries(&entries),
    }
}

/// Law: the resolved URL depends on element 0 of the metadata array alone —
/// two non-empty arrays with the same first element resolve alike,
/// whatever their later elements hold.
pub proof fn lemma_resolve_ignores_later_entries(
    a: Seq<Option<Seq<char>>>,
    b: Seq<Option<Seq<char>>>,
)
    requires
        a.len() > 0,
        b.len() > 0,
        a[0] == b[0],
    ensures
        latest_url(a) == latest_url(b),
{
}

} // verus!
