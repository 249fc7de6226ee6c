//! Project-dependency resolution engine: a semantic-version model, manifest
//! and lockfile normalization for the npm and cargo ecosystems, a fetch
//! planner that deduplicates registry lookups, and the query API that
//! classifies how far each installed dependency trails the registry.

pub mod determinekind;
pub mod events;
pub mod javascriptnpm;
pub mod parser;
pub mod render;
pub mod rustcargo;
pub mod version;

use vstd::prelude::*;

verus! {

/// Renders an optional string the way the terminal front end shows it: the
/// value itself, or `-` when there is none.
pub fn stringify(value: &Option<String>) -> (r: String)
    ensures
        match value {
            Some(v) => r@ == v@,
            None => r@ == "-"@,
        },
{
    match value {
        Some(v) => v.clone(),
        None => "-".to_owned(),
    }
}

} // verus!
