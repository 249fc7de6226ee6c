//! Selecting the ecosystem backend for a project directory.
//!
//! Probing the file system is I/O and stays with the caller; it reports
//! which identifying files exist and the selection itself is decided here.

use vstd::prelude::*;

verus! {

/// Which identifying files exist under a project root. The caller fills
/// this in from its directory probe.
#[derive(Clone, Copy)]
pub struct RootFiles {
    /// `package.json` exists.
    pub package_json: bool,
    /// `package-lock.json` exists.
    pub package_lock_json: bool,
    /// `Cargo.toml` exists.
    pub cargo_toml: bool,
}

/// The supported ecosystems, one backend each.
#[derive(Clone, Copy, Debug, PartialEq, Eq, Structural)]
pub enum ParserKind {
    JavascriptNpm,
    RustCargo,
}

impl ParserKind {
    /// Picks the backend for a project root from the files present there:
    /// a `package-lock.json` selects the npm backend, otherwise a
    /// `Cargo.toml` selects the cargo backend, otherwise the root is
    /// unsupported.
    pub fn determine_kind(files: &RootFiles) -> (r: Option<ParserKind>)
        ensures
            r == if files.package_lock_json {
                Some(ParserKind::JavascriptNpm)
            } else if files.cargo_toml {
                Some(ParserKind::RustCargo)
            } else {
                None::<ParserKind>
            },
    {
        if files.package_lock_json {
            Some(ParserKind::JavascriptNpm)
        } else if files.cargo_toml {
            Some(ParserKind::RustCargo)
        } else {
            None
        }
    }
}

/// Does the project root hold the manifest that identifies this ecosystem
/// (`package.json` for npm, `Cargo.toml` for cargo)?
pub fn is_this_it(files: &RootFiles, kind: &ParserKind) -> (r: bool)
    ensures
        r == match kind {
            ParserKind::JavascriptNpm => files.package_json,
            ParserKind::RustCargo => files.cargo_toml,
        },
{
    match kind {
        ParserKind::JavascriptNpm => files.package_json,
        ParserKind::RustCargo => files.cargo_toml,
    }
}

} // verus!
