//! The installation locator: the decisions that resolve the game's content
//! directory from the record, the working directory and a scan of the
//! filesystem roots. The caller carries out each step and reports back.
use vstd::prelude::*;
use crate::bsp::{eq_ignore_ascii_case, eq_ignore_case};
use crate::cvar::DEFAULT_MAP_SETTINGS;
use crate::store::Config;
use crate::text::chars_of;

verus! {

/// The deepest level below a root that the scan visits.
pub const MAX_SCAN_DEPTH: usize = 10;

/// Name of the directories that the scan does not enter.
pub const RECYCLE_BIN: &'static str = "$Recycle.Bin";

/// What the caller does next to resolve the installation directory.
pub enum LocatorAction {
    /// Check whether the working directory holds the default marker file.
    CheckWorkingDir,
    /// Scan every filesystem root for the default marker file.
    ScanRoots,
    /// Write this directory into the record, then resolve to it.
    Persist(String),
    /// Resolved to this directory; nothing to write.
    Resolved(String),
    /// No installation was found.
    NotFound,
}

/// First step: resolves to the recorded directory where the record holds
/// one, else asks for the working directory to be checked.
pub fn init(stored: &Config) -> (r: LocatorAction)
    ensures
        stored.svencoopdir matches Some(d) ==> (r matches LocatorAction::Resolved(x) && x@ == d@),
        stored.svencoopdir is None ==> r is CheckWorkingDir,
{
    match &stored.svencoopdir {
        Some(d) => LocatorAction::Resolved(d.clone()),
        None => LocatorAction::CheckWorkingDir,
    }
}

/// Second step, once the working directory `dir` was checked: it is the
/// installation directory, to be recorded, where it holds the marker file;
/// else the roots are to be scanned.
pub fn after_working_dir(dir: String, has_marker: bool) -> (r: LocatorAction)
    ensures
        has_marker ==> (r matches LocatorAction::Persist(x) && x@ == dir@),
        !has_marker ==> r is ScanRoots,
{
    if has_marker {
        LocatorAction::Persist(dir)
    } else {
        LocatorAction::ScanRoots
    }
}

/// Last step, once the scan is done: the directory that holds the first
/// marker file found is the installation directory, to be recorded; with
/// none found, the installation is not found.
pub fn after_scan(found: Option<String>) -> (r: LocatorAction)
    ensures
        found matches Some(d) ==> (r matches LocatorAction::Persist(x) && x@ == d@),
        found is None ==> r is NotFound,
{
    match found {
        Some(d) => LocatorAction::Persist(d),
        None => LocatorAction::NotFound,
    }
}

/// Whether the scan matches the file name `name`: it is the default marker
/// file's name up to ASCII case.
pub fn is_marker_name(name: &str) -> (r: bool)
    ensures
        r == eq_ignore_case(name@, DEFAULT_MAP_SETTINGS@),
{
    let n = chars_of(name);
    let m = chars_of(DEFAULT_MAP_SETTINGS);
    eq_ignore_ascii_case(&n, &m)
}

/// Whether the scan skips the directory named `name`: a recycle bin, in any
/// ASCII case.
pub fn is_pruned(name: &str) -> (r: bool)
    ensures
        r == eq_ignore_case(name@, RECYCLE_BIN@),
{
    let n = chars_of(name);
    let m = chars_of(RECYCLE_BIN);
    eq_ignore_ascii_case(&n, &m)
}

} // verus!
