//! The config writer: checks a request, picks the configuration files it
//! targets, and says what each of the four write operations does to each.
use vstd::prelude::*;
use crate::bsp::{cfg_file_name, cfg_name, filter_whitelist, load_bsps, map_files, whitelist_filter};
use crate::text::{
    chars_of, lines_of, replace_all, replace_chars, split_lines, string_of, texts, views,
};

verus! {

/// What a request does to each configuration file it targets.
#[derive(PartialEq, Eq, Structural, Clone, Copy, Debug)]
pub enum WriteType {
    /// Create or truncate, then write the cvars.
    OVERWRITE,
    /// Create if absent, then add the cvars at the end.
    APPEND,
    /// Take every cvar line out of an existing file.
    REMOVE,
    /// Delete an existing file.
    DELETE,
}

/// Why a request is refused before any file is touched.
#[derive(PartialEq, Eq, Structural, Clone, Copy, Debug)]
pub enum CreateError {
    /// No cvars were given for an operation that writes them.
    NoCvars,
    /// The directory holds no map file.
    NoBsps,
    /// The directory holds map files, but the whitelist keeps none of them.
    NoWhitelistMatch,
}

/// A request to the config writer.
pub struct Cfg {
    /// The cvar text, one cvar per line.
    pub cvars: String,
    pub writetype: WriteType,
    /// Whether the files are the skill variant (`_skl.cfg`).
    pub is_skillcfg: bool,
    /// The directory that holds the map files.
    pub bspdir: String,
    /// Names of the maps to keep; empty keeps every map.
    pub bspwhitelist: Vec<String>,
}

/// The text that writing `cvars` puts in a file: the cvars and one newline.
pub open spec fn written(cvars: Seq<char>) -> Seq<char> {
    cvars.push('\n')
}

/// `s` with every occurrence of each of `ls` taken out, one line after the
/// other, in their order.
pub open spec fn remove_each(s: Seq<char>, ls: Seq<Seq<char>>) -> Seq<char>
    decreases ls.len(),
{
    if ls.len() == 0 {
        s
    } else {
        remove_each(replace_all(s, ls[0], seq![]), ls.drop_first())
    }
}

/// The text of a file holding `content` after the cvars `cvars` are removed
/// from it: every occurrence of each line of the cvars, anywhere in the file.
pub open spec fn removed(content: Seq<char>, cvars: Seq<char>) -> Seq<char> {
    remove_each(content, lines_of(written(cvars)))
}

/// The outcome of checking a request against the directory listing
/// `listing`: the configuration file names it targets, or why it is refused.
pub open spec fn plan(
    cvars: Seq<char>,
    wt: WriteType,
    skill: bool,
    whitelist: Seq<Seq<char>>,
    listing: Seq<Seq<char>>,
) -> Result<Seq<Seq<char>>, CreateError> {
    let bsps = map_files(listing);
    let kept = whitelist_filter(bsps, whitelist);
    if cvars.len() == 0 && wt != WriteType::DELETE {
        Err(CreateError::NoCvars)
    } else if bsps.len() == 0 {
        Err(CreateError::NoBsps)
    } else if kept.len() == 0 {
        Err(CreateError::NoWhitelistMatch)
    } else {
        Ok(kept.map_values(|n: Seq<char>| cfg_name(n, skill)))
    }
}

/// One file operation, as a value.
pub enum FileOp {
    /// Create or truncate the file and write this text.
    Write(String),
    /// Create the file if absent and add this text at its end.
    Append(String),
    /// Delete the file.
    Delete,
    /// Leave the file alone.
    Skip,
}

/// The model of a file operation.
pub enum FileOpModel {
    Write(Seq<char>),
    Append(Seq<char>),
    Delete,
    Skip,
}

impl View for FileOp {
    type V = FileOpModel;

    open spec fn view(&self) -> FileOpModel {
        match self {
            FileOp::Write(t) => FileOpModel::Write(t@),
            FileOp::Append(t) => FileOpModel::Append(t@),
            FileOp::Delete => FileOpModel::Delete,
            FileOp::Skip => FileOpModel::Skip,
        }
    }
}

/// The text of `o`, if any.
pub open spec fn opt_text(o: Option<String>) -> Option<Seq<char>> {
    match o {
        Some(t) => Some(t@),
        None => None,
    }
}

/// The operation that a request of type `wt` with cvars `cvars` applies to
/// one target, which exists or not and whose text could be read (`current`)
/// or not.
pub open spec fn op_for(
    wt: WriteType,
    cvars: Seq<char>,
    exists: bool,
    current: Option<Seq<char>>,
) -> FileOpModel {
    match wt {
        WriteType::OVERWRITE => FileOpModel::Write(written(cvars)),
        WriteType::APPEND => FileOpModel::Append(written(cvars)),
        WriteType::REMOVE => match current {
            Some(t) => FileOpModel::Write(removed(t, cvars)),
            None => FileOpModel::Skip,
        },
        WriteType::DELETE => if exists {
            FileOpModel::Delete
        } else {
            FileOpModel::Skip
        },
    }
}

/// The text of a file after `op`, where `f` is its text before (`None`:
/// the file is absent).
pub open spec fn after(f: Option<Seq<char>>, op: FileOpModel) -> Option<Seq<char>> {
    match op {
        FileOpModel::Write(t) => Some(t),
        FileOpModel::Append(t) => match f {
            Some(c) => Some(c + t),
            None => Some(t),
        },
        FileOpModel::Delete => None,
        FileOpModel::Skip => f,
    }
}

/// The text `content` with every cvar line of `cvars` removed: each line
/// of the cvars, in order, has every occurrence in the text taken out.
pub fn remove_cvars(content: &str, cvars: &str) -> (r: String)
    ensures
        r@ == removed(content@, cvars@),
{
    let mut c = chars_of(cvars);
    c.push('\n');
    let lines = split_lines(&c);
    let ghost ls = views(lines@);
    let mut cur = chars_of(content);
    let empty: Vec<char> = Vec::new();
    let mut i: usize = 0;
    assert(ls.subrange(0, ls.len() as int) =~= ls);
    while i < lines.len()
        invariant
            i <= lines.len(),
            ls == views(lines@),
            ls == lines_of(written(cvars@)),
            empty@ == Seq::<char>::empty(),
            removed(content@, cvars@) == remove_each(cur@, ls.subrange(i as int, ls.len() as int)),
        decreases lines.len() - i,
    {
        let ghost rest = ls.subrange(i as int, ls.len() as int);
        assert(rest.drop_first() =~= ls.subrange(i + 1, ls.len() as int));
        assert(rest[0] == lines@[i as int]@);
        if lines[i].len() > 0 {
            cur = replace_chars(&cur, &lines[i], &empty);
        } else {
            assert(replace_all(cur@, lines@[i as int]@, seq![]) == cur@);
        }
        assert(empty@ =~= seq![]);
        i += 1;
    }
    string_of(cur.as_slice())
}

impl Cfg {
    /// Checks the request against the names of the entries of its
    /// directory, `listing`, and gives the configuration file names it
    /// targets: one for each map file that the whitelist keeps, in listing
    /// order. Refused, in this order of precedence: without cvars for an
    /// operation other than `DELETE`; where the listing holds no map file;
    /// where the whitelist keeps none.
    pub fn targets(&self, listing: &Vec<String>) -> (r: Result<Vec<String>, CreateError>)
        ensures
            r matches Ok(t) ==> plan(
                self.cvars@,
                self.writetype,
                self.is_skillcfg,
                texts(self.bspwhitelist@),
                texts(listing@),
            ) == Ok::<Seq<Seq<char>>, CreateError>(texts(t@)),
            r matches Err(e) ==> plan(
                self.cvars@,
                self.writetype,
                self.is_skillcfg,
                texts(self.bspwhitelist@),
                texts(listing@),
            ) == Err::<Seq<Seq<char>>, CreateError>(e),
    {
        if self.cvars.as_str().is_empty() && self.writetype != WriteType::DELETE {
            return Err(CreateError::NoCvars);
        }
        let bsps = load_bsps(listing);
        if bsps.len() == 0 {
            return Err(CreateError::NoBsps);
        }
        let kept = filter_whitelist(&bsps, &self.bspwhitelist);
        if kept.len() == 0 {
            return Err(CreateError::NoWhitelistMatch);
        }
        let ghost k = texts(kept@);
        let mut r: Vec<String> = Vec::new();
        let mut i: usize = 0;
        while i < kept.len()
            invariant
                i <= kept.len(),
                k == texts(kept@),
                texts(r@) =~= k.subrange(0, i as int).map_values(
                    |n: Seq<char>| cfg_name(n, self.is_skillcfg),
                ),
            decreases kept.len() - i,
        {
            let name = cfg_file_name(kept[i].as_str(), self.is_skillcfg);
            let ghost old_r = texts(r@);
            r.push(name);
            assert(texts(r@) =~= old_r.push(cfg_name(k[i as int], self.is_skillcfg)));
            assert(k.subrange(0, i + 1).map_values(|n: Seq<char>| cfg_name(n, self.is_skillcfg))
                =~= k.subrange(0, i as int).map_values(
                |n: Seq<char>| cfg_name(n, self.is_skillcfg),
            ).push(cfg_name(k[i as int], self.is_skillcfg)));
            i += 1;
        }
        assert(k.subrange(0, k.len() as int) =~= k);
        Ok(r)
    }

    /// The operation this request applies to one of its targets, which
    /// exists or not and whose text, read beforehand, is `current` (`None`
    /// where it is absent or could not be read).
    pub fn file_op(&self, exists: bool, current: Option<String>) -> (r: FileOp)
        ensures
            r@ == op_for(self.writetype, self.cvars@, exists, opt_text(current)),
    {
        match self.writetype {
            WriteType::OVERWRITE => {
                let mut t = self.cvars.clone();
                t.append("\n");
                proof {
                    reveal_strlit("\n");
                }
                assert(t@ =~= written(self.cvars@));
                FileOp::Write(t)
            },
            WriteType::APPEND => {
                let mut t = self.cvars.clone();
                t.append("\n");
                proof {
                    reveal_strlit("\n");
                }
                assert(t@ =~= written(self.cvars@));
                FileOp::Append(t)
            },
            WriteType::REMOVE => match current {
                Some(text) => FileOp::Write(remove_cvars(text.as_str(), self.cvars.as_str())),
                None => FileOp::Skip,
            },
            WriteType::DELETE => if exists {
                FileOp::Delete
            } else {
                FileOp::Skip
            },
        }
    }
}

/// The number of targets processed with success, where `done` tells for each
/// attempted target whether its operation succeeded.
pub open spec fn successes(done: Seq<bool>) -> nat
    decreases done.len(),
{
    if done.len() == 0 {
        0
    } else {
        successes(done.drop_last()) + if done.last() {
            1nat
        } else {
            0nat
        }
    }
}

/// The result of a request: -1 where it was refused before any file was
/// touched, else the number of targets processed with success.
pub fn outcome(planned: &Result<Vec<String>, CreateError>, done: &Vec<bool>) -> (r: i64)
    requires
        done.len() < i64::MAX,
    ensures
        planned is Err ==> r == -1,
        planned is Ok ==> r == successes(done@),
{
    if planned.is_err() {
        return -1;
    }
    let mut n: i64 = 0;
    let mut i: usize = 0;
    while i < done.len()
        invariant
            i <= done.len() < i64::MAX,
            n == successes(done@.subrange(0, i as int)),
            n <= i,
        decreases done.len() - i,
    {
        assert(done@.subrange(0, i + 1).drop_last() =~= done@.subrange(0, i as int));
        if done[i] {
            n += 1;
        }
        i += 1;
    }
    assert(done@.subrange(0, done.len() as int) =~= done@);
    n
}

/// A request without cvars is refused before any file is touched, for every
/// operation but `DELETE` and whatever the directory holds.
pub proof fn empty_cvars_refused(
    wt: WriteType,
    skill: bool,
    whitelist: Seq<Seq<char>>,
    listing: Seq<Seq<char>>,
)
    requires
        wt != WriteType::DELETE,
    ensures
        plan(seq![], wt, skill, whitelist, listing) == Err::<Seq<Seq<char>>, CreateError>(
            CreateError::NoCvars,
        ),
{
}

/// With cvars given and some map kept by the whitelist, overwriting targets
/// one file per kept map, and leaves in each exactly the cvars followed by
/// one newline, whatever it held before: reading it back without that
/// newline gives the cvars.
pub proof fn overwrite_round_trip(
    cvars: Seq<char>,
    skill: bool,
    whitelist: Seq<Seq<char>>,
    listing: Seq<Seq<char>>,
    before: Option<Seq<char>>,
    exists: bool,
    current: Option<Seq<char>>,
)
    requires
        cvars.len() > 0,
        whitelist_filter(map_files(listing), whitelist).len() > 0,
    ensures
        plan(cvars, WriteType::OVERWRITE, skill, whitelist, listing) == Ok::<
            Seq<Seq<char>>,
            CreateError,
        >(whitelist_filter(map_files(listing), whitelist).map_values(|n: Seq<char>| cfg_name(n, skill))),
        after(before, op_for(WriteType::OVERWRITE, cvars, exists, current)) == Some(written(cvars)),
        written(cvars).drop_last() == cvars,
{
    if map_files(listing).len() == 0 {
        assert(map_files(listing) =~= seq![]);
        assert(whitelist_filter(map_files(listing), whitelist) =~= seq![]) by {
            reveal(Seq::filter);
        }
    }
    assert(written(cvars).drop_last() =~= cvars);
}

/// Appending `a` and then `b` to an absent file leaves the same text as
/// appending, once, `a` and `b` joined by a newline.
pub proof fn appends_concatenate(
    a: Seq<char>,
    b: Seq<char>,
    exists_a: bool,
    current_a: Option<Seq<char>>,
    exists_b: bool,
    current_b: Option<Seq<char>>,
)
    ensures
        after(
            after(None, op_for(WriteType::APPEND, a, exists_a, current_a)),
            op_for(WriteType::APPEND, b, exists_b, current_b),
        ) == after(None, op_for(WriteType::APPEND, a.push('\n') + b, exists_a, current_a)),
{
    assert(written(a) + written(b) =~= written(a.push('\n') + b));
}

/// Deleting is idempotent: after a delete the file is absent, and a second
/// delete of the absent file is no operation at all.
pub proof fn delete_idempotent(
    before: Option<Seq<char>>,
    cvars: Seq<char>,
    current: Option<Seq<char>>,
    current_again: Option<Seq<char>>,
)
    ensures
        ({
            let once = after(before, op_for(WriteType::DELETE, cvars, before is Some, current));
            &&& once is None
            &&& op_for(WriteType::DELETE, cvars, once is Some, current_again) == FileOpModel::Skip
            &&& after(once, op_for(WriteType::DELETE, cvars, once is Some, current_again)) == once
        }),
{
}

} // verus!
