//! The location store: the record of the installation directory, and where
//! it is kept.
use vstd::prelude::*;
use crate::text::{chars_of, string_of};

verus! {

/// Name of the application, used for its data directory and record file.
pub const APPNAME: &'static str = "CFGBeast";

/// File name of the record.
pub const RECORD_FILE: &'static str = "CFGBeast.toml";

/// File name under which a new record is written before it replaces the old.
pub const RECORD_TEMP_FILE: &'static str = "CFGBeast.toml.tmp";

/// The persisted record: the installation directory, once found.
pub struct Config {
    pub svencoopdir: Option<String>,
}

impl Default for Config {
    fn default() -> (r: Config)
        ensures
            r.svencoopdir is None,
    {
        Config { svencoopdir: None }
    }
}

impl Config {
    /// The record of the installation directory `dir`.
    pub fn for_dir(dir: String) -> (r: Config)
        ensures
            r.svencoopdir == Some(dir),
    {
        Config { svencoopdir: Some(dir) }
    }
}

/// Whether `c` separates the parts of a path.
pub open spec fn is_sep(c: char) -> bool {
    c == '/' || c == '\\'
}

/// The path of `name` inside the directory `dir`: `/` stands between them
/// unless `dir` is empty or already ends with a separator.
pub open spec fn join(dir: Seq<char>, name: Seq<char>) -> Seq<char> {
    if dir.len() == 0 {
        name
    } else if is_sep(dir.last()) {
        dir + name
    } else {
        dir.push('/') + name
    }
}

/// The path of `name` inside the directory `dir`.
pub fn join_path(dir: &str, name: &str) -> (r: String)
    ensures
        r@ == join(dir@, name@),
{
    let d = chars_of(dir);
    let n = chars_of(name);
    let mut out = d.clone();
    if d.len() > 0 && !(d[d.len() - 1] == '/' || d[d.len() - 1] == '\\') {
        out.push('/');
    }
    let ghost pre = out@;
    let mut i: usize = 0;
    while i < n.len()
        invariant
            i <= n.len(),
            out@ == pre + n@.subrange(0, i as int),
        decreases n.len() - i,
    {
        out.push(n[i]);
        i += 1;
    }
    assert(n@.subrange(0, n.len() as int) =~= n@);
    assert(out@ =~= join(dir@, name@));
    string_of(out.as_slice())
}

/// The base directory chosen for the application's data: the first of the
/// per-user local data directory, the per-user roaming data directory and
/// the working directory that is known.
pub open spec fn data_root(
    local: Option<Seq<char>>,
    roaming: Option<Seq<char>>,
    cwd: Seq<char>,
) -> Seq<char> {
    match local {
        Some(l) => l,
        None => match roaming {
            Some(r) => r,
            None => cwd,
        },
    }
}

/// The application's data directory, from the per-user local and roaming
/// data directories where the environment names them, falling back to the
/// working directory `cwd`.
pub fn appdata_base(local: Option<String>, roaming: Option<String>, cwd: &str) -> (r: String)
    ensures
        r@ == join(
            data_root(
                match local {
                    Some(l) => Some(l@),
                    None => None,
                },
                match roaming {
                    Some(x) => Some(x@),
                    None => None,
                },
                cwd@,
            ),
            APPNAME@,
        ),
{
    match local {
        Some(l) => join_path(l.as_str(), APPNAME),
        None => match roaming {
            Some(x) => join_path(x.as_str(), APPNAME),
            None => join_path(cwd, APPNAME),
        },
    }
}

/// The path of the record inside the data directory `base`.
pub fn config_path(base: &str) -> (r: String)
    ensures
        r@ == join(base@, RECORD_FILE@),
{
    join_path(base, RECORD_FILE)
}

/// The path under which a new record is written inside `base` before it
/// is renamed over the record.
pub fn temp_path(base: &str) -> (r: String)
    ensures
        r@ == join(base@, RECORD_TEMP_FILE@),
{
    join_path(base, RECORD_TEMP_FILE)
}

} // verus!
