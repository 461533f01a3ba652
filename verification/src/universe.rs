//! Watch-list and index-universe entries: what a request stores.
use vstd::prelude::*;

use crate::text::{owned, trim, trimmed};

verus! {

broadcast use vstd::string::group_string_axioms;

/// One watch-list entry.
#[derive(Debug, Clone)]
pub struct WatchItem {
    pub group_name: String,
    pub code: String,
    pub name: String,
    pub note: String,
    pub added_at: String,
}

/// Request to add (or refresh) a watch-list entry.
#[derive(Debug, Clone)]
pub struct WatchAdd {
    pub group: Option<String>,
    pub code: String,
    pub name: Option<String>,
    pub note: Option<String>,
}

/// One index of the index universe.
#[derive(Debug, Clone)]
pub struct IndexItem {
    pub code: String,
    pub name: String,
    pub enabled: bool,
}

/// Request to add (or update) an index.
#[derive(Debug, Clone)]
pub struct IndexAdd {
    pub code: String,
    pub name: Option<String>,
    pub enabled: Option<bool>,
}

/// Why a request was refused.
#[derive(Debug, Clone, Copy, PartialEq, Eq)]
pub enum UniverseError {
    /// The code is empty or only whitespace.
    CodeRequired,
}

/// The values a watch-list upsert writes.
#[derive(Debug, Clone)]
pub struct WatchRow {
    pub group: String,
    pub code: String,
    pub name: String,
    pub note: String,
}

/// The values an index upsert writes.
#[derive(Debug, Clone)]
pub struct IndexRow {
    pub code: String,
    pub name: String,
    pub enabled: bool,
}

/// Name of the group used when none is given.
pub open spec fn default_group() -> Seq<char> {
    "默认"@
}

/// A string option's value, or the empty string.
pub open spec fn or_empty(s: Option<String>) -> Seq<char> {
    match s {
        Some(v) => v@,
        None => Seq::empty(),
    }
}

/// The group of a request: the given one, or the default group.
pub fn watch_group(group: Option<String>) -> (g: String)
    ensures
        g@ == match group {
            Some(v) => v@,
            None => default_group(),
        },
{
    match group {
        Some(v) => v,
        None => owned("默认"),
    }
}

/// A string option's value, or the empty string.
fn unwrap_or_empty(s: Option<String>) -> (r: String)
    ensures
        r@ == or_empty(s),
{
    match s {
        Some(v) => v,
        None => String::new(),
    }
}

/// Checks a watch-list request and fills in its defaults: refused when the
/// code is blank; otherwise the group defaults to `默认`, name and note to
/// the empty string, and the code is kept as given.
pub fn prepare_watch_add(req: WatchAdd) -> (r: Result<WatchRow, UniverseError>)
    ensures
        match r {
            Ok(row) => {
                &&& trim(req.code@).len() != 0
                &&& row.code@ == req.code@
                &&& row.group@ == match req.group {
                    Some(v) => v@,
                    None => default_group(),
                }
                &&& row.name@ == or_empty(req.name)
                &&& row.note@ == or_empty(req.note)
            },
            Err(e) => trim(req.code@).len() == 0 && e == UniverseError::CodeRequired,
        },
{
    let t = trimmed(req.code.as_str());
    if t.as_str().is_empty() {
        return Err(UniverseError::CodeRequired);
    }
    let group = watch_group(req.group);
    let name = unwrap_or_empty(req.name);
    let note = unwrap_or_empty(req.note);
    Ok(WatchRow { group, code: req.code, name, note })
}

/// Checks an index request and fills in its defaults: refused when the code is
/// blank; otherwise the name defaults to the empty string and `enabled` to
/// `true`.
pub fn prepare_index_add(req: IndexAdd) -> (r: Result<IndexRow, UniverseError>)
    ensures
        match r {
            Ok(row) => {
                &&& trim(req.code@).len() != 0
                &&& row.code@ == req.code@
                &&& row.name@ == or_empty(req.name)
                &&& row.enabled == match req.enabled {
                    Some(b) => b,
                    None => true,
                }
            },
            Err(e) => trim(req.code@).len() == 0 && e == UniverseError::CodeRequired,
        },
{
    let t = trimmed(req.code.as_str());
    if t.as_str().is_empty() {
        return Err(UniverseError::CodeRequired);
    }
    let name = unwrap_or_empty(req.name);
    let enabled = match req.enabled {
        Some(b) => b,
        None => true,
    };
    Ok(IndexRow { code: req.code, name, enabled })
}

} // verus!
