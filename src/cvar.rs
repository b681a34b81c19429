//! The cvar catalog: the cvar lines of a marker file, sorted, with the
//! supplemental cvars that the default marker file lacks.
use vstd::prelude::*;
use crate::store::{join, join_path};
use crate::text::{
    chars_of, lines_of, replace_all, replace_chars, split_lines, string_of, texts, trim,
    trim_chars, views,
};

verus! {

/// File name of the default marker file.
pub const DEFAULT_MAP_SETTINGS: &'static str = "default_map_settings.cfg";

/// File name of the skill marker file, a sibling of the default one.
pub const SKILL_SETTINGS: &'static str = "skill.cfg";

/// Whether the trimmed line `l` is a comment: it starts with `//` or `#`.
pub open spec fn is_comment(l: Seq<char>) -> bool {
    (l.len() >= 2 && l[0] == '/' && l[1] == '/') || (l.len() >= 1 && l[0] == '#')
}

/// Whether the trimmed line `l` holds a cvar: it is neither blank nor a comment.
pub open spec fn is_cvar_line(l: Seq<char>) -> bool {
    l.len() > 0 && !is_comment(l)
}

/// The cvar lines of the marker text `s`, trimmed, in file order.
pub open spec fn cvar_lines(s: Seq<char>) -> Seq<Seq<char>> {
    lines_of(s).map_values(|l: Seq<char>| trim(l)).filter(|l: Seq<char>| is_cvar_line(l))
}

/// Whether `a` comes no later than `b` in `String`'s order: lexicographic
/// by code point, a prefix first.
pub open spec fn lex_le(a: Seq<char>, b: Seq<char>) -> bool
    decreases a.len(),
{
    if a.len() == 0 {
        true
    } else if b.len() == 0 {
        false
    } else if a[0] != b[0] {
        (a[0] as u32) < (b[0] as u32)
    } else {
        lex_le(a.drop_first(), b.drop_first())
    }
}

/// Whether `s` is in ascending order.
pub open spec fn sorted(s: Seq<Seq<char>>) -> bool {
    forall|i: int, j: int| 0 <= i < j < s.len() ==> lex_le(#[trigger] s[i], #[trigger] s[j])
}

/// The cvars that every default catalog holds besides those of the marker file.
pub open spec fn supplemental() -> Seq<Seq<char>> {
    seq![
        "map_script"@,
        "globalmodellist"@,
        "globalsoundlist"@,
        "sentence_file"@,
        "materials_file"@,
        "forcepmodels"@,
        "as_command"@,
        "nomaptrans"@,
        "nomedkit"@,
        "nosuit"@,
        "item_longjump"@,
        "ammo_9mm"@,
        "ammo_buckshot"@,
        "ammo_gaussclip"@,
        "ammo_crossbow"@,
        "ammo_556"@,
        "ammo_rpg"@,
        "weapon_357"@,
        "weapon_eagle"@,
        "weapon_uzi"@,
        "weapon_uziakimbo"@,
        "weapon_mp5"@,
        "weapon_shotgun"@,
        "weapon_m16"@,
        "weapon_crossbow"@,
        "weapon_sniperrifle"@,
        "weapon_m249"@,
        "weapon_rpg"@,
        "weapon_minigun"@,
        "weapon_gauss"@,
        "weapon_egon"@,
        "weapon_displacer"@,
        "weapon_tripmine"@,
        "weapon_handgrenade"@,
        "weapon_satchel"@,
        "weapon_hivehand"@,
        "weapon_snark"@,
        "weapon_grapple"@,
        "weapon_sporelauncher"@,
        "mp_allowmodelselection"@,
        "mp_telefrag 0"@,
        "mp_monsterpoints 1"@,
        "mp_teamlist 0"@,
        "mp_teamoverride 1"@,
        "mp_timeleft"@,
        "mp_timeleft_empty"@,
        "mp_survival_retries"@,
        "mp_survival_voteallow"@,
        "mp_classic_mode 0"@,
    ]
}

/// First line of the catalog that stands for a marker file that could not be read.
pub open spec fn failure_line() -> Seq<char> {
    "! Failed to load cvars."@
}

/// Second line of that catalog, followed by the reason.
pub open spec fn reason_prefix() -> Seq<char> {
    "Reason: "@
}

/// The catalog that stands for a marker file that could not be read.
pub open spec fn failure_catalog(reason: Seq<char>) -> Seq<Seq<char>> {
    seq![failure_line(), reason_prefix() + reason]
}

/// Relies on `slice::sort` over `String`: the result is a permutation of
/// the input in ascending order, and `String`'s order compares UTF-8 bytes
/// lexicographically, which orders as code points do.
#[verifier::external_body]
fn sort_strings(v: &mut Vec<String>)
    ensures
        sorted(texts(final(v)@)),
        texts(final(v)@).to_multiset() == texts(old(v)@).to_multiset(),
{
    v.sort();
}

/// The supplemental cvars, in a fixed order.
pub fn other_cvars() -> (r: Vec<String>)
    ensures
        texts(r@) == supplemental(),
{
    let r = vec![
        "map_script".to_owned(),
        "globalmodellist".to_owned(),
        "globalsoundlist".to_owned(),
        "sentence_file".to_owned(),
        "materials_file".to_owned(),
        "forcepmodels".to_owned(),
        "as_command".to_owned(),
        "nomaptrans".to_owned(),
        "nomedkit".to_owned(),
        "nosuit".to_owned(),
        "item_longjump".to_owned(),
        "ammo_9mm".to_owned(),
        "ammo_buckshot".to_owned(),
        "ammo_gaussclip".to_owned(),
        "ammo_crossbow".to_owned(),
        "ammo_556".to_owned(),
        "ammo_rpg".to_owned(),
        "weapon_357".to_owned(),
        "weapon_eagle".to_owned(),
        "weapon_uzi".to_owned(),
        "weapon_uziakimbo".to_owned(),
        "weapon_mp5".to_owned(),
        "weapon_shotgun".to_owned(),
        "weapon_m16".to_owned(),
        "weapon_crossbow".to_owned(),
        "weapon_sniperrifle".to_owned(),
        "weapon_m249".to_owned(),
        "weapon_rpg".to_owned(),
        "weapon_minigun".to_owned(),
        "weapon_gauss".to_owned(),
        "weapon_egon".to_owned(),
        "weapon_displacer".to_owned(),
        "weapon_tripmine".to_owned(),
        "weapon_handgrenade".to_owned(),
        "weapon_satchel".to_owned(),
        "weapon_hivehand".to_owned(),
        "weapon_snark".to_owned(),
        "weapon_grapple".to_owned(),
        "weapon_sporelauncher".to_owned(),
        "mp_allowmodelselection".to_owned(),
        "mp_telefrag 0".to_owned(),
        "mp_monsterpoints 1".to_owned(),
        "mp_teamlist 0".to_owned(),
        "mp_teamoverride 1".to_owned(),
        "mp_timeleft".to_owned(),
        "mp_timeleft_empty".to_owned(),
        "mp_survival_retries".to_owned(),
        "mp_survival_voteallow".to_owned(),
        "mp_classic_mode 0".to_owned(),
    ];
    assert(texts(r@) =~= supplemental());
    r
}

fn is_cvar(l: &Vec<char>) -> (r: bool)
    ensures
        r == is_cvar_line(l@),
{
    if l.len() == 0 {
        false
    } else if l[0] == '#' {
        false
    } else {
        !(l.len() >= 2 && l[0] == '/' && l[1] == '/')
    }
}

/// The cvar lines of the marker text `text`, trimmed, in file order.
fn cvar_lines_of(text: &str) -> (r: Vec<String>)
    ensures
        texts(r@) == cvar_lines(text@),
{
    let s = chars_of(text);
    let lines = split_lines(&s);
    let ghost ls = views(lines@);
    let mut r: Vec<String> = Vec::new();
    let mut i: usize = 0;
    while i < lines.len()
        invariant
            i <= lines.len(),
            ls == views(lines@),
            ls == lines_of(text@),
            texts(r@) == ls.subrange(0, i as int).map_values(|l: Seq<char>| trim(l)).filter(
                |l: Seq<char>| is_cvar_line(l),
            ),
        decreases lines.len() - i,
    {
        let ghost m0 = ls.subrange(0, i as int).map_values(|l: Seq<char>| trim(l));
        let ghost m1 = ls.subrange(0, i + 1).map_values(|l: Seq<char>| trim(l));
        assert(m1.drop_last() =~= m0);
        assert(m1.last() == trim(lines@[i as int]@));
        reveal(Seq::filter);
        let t = trim_chars(&lines[i]);
        let ghost old_r = texts(r@);
        if is_cvar(&t) {
            let line = string_of(t.as_slice());
            r.push(line);
            assert(texts(r@) =~= old_r.push(t@));
        }
        i += 1;
    }
    assert(ls.subrange(0, lines.len() as int) =~= ls);
    r
}

/// The cvar lines of the marker text `text`, trimmed and sorted.
pub fn parse_cfg(text: &str) -> (r: Vec<String>)
    ensures
        sorted(texts(r@)),
        texts(r@).to_multiset() == cvar_lines(text@).to_multiset(),
{
    let mut r = cvar_lines_of(text);
    sort_strings(&mut r);
    r
}

fn failure(reason: &str) -> (r: Vec<String>)
    ensures
        texts(r@) == failure_catalog(reason@),
{
    let first = "! Failed to load cvars.".to_owned();
    let mut second = "Reason: ".to_owned();
    second.append(reason);
    let r = vec![first, second];
    assert(texts(r@) =~= failure_catalog(reason@));
    r
}

/// The default catalog from the outcome of reading the default marker file:
/// its cvar lines and the supplemental cvars, sorted; or, where the file
/// could not be read, the two-line failure catalog with the reason.
pub fn get_default_cvars(marker: Result<String, String>) -> (r: Vec<String>)
    ensures
        marker matches Ok(text) ==> sorted(texts(r@)) && texts(r@).to_multiset() == (cvar_lines(
            text@,
        ) + supplemental()).to_multiset(),
        marker matches Err(reason) ==> texts(r@) == failure_catalog(reason@),
{
    match marker {
        Ok(text) => {
            let mut r = cvar_lines_of(text.as_str());
            let mut other = other_cvars();
            let ghost a = texts(r@);
            let ghost b = texts(other@);
            r.append(&mut other);
            assert(texts(r@) =~= a + b);
            sort_strings(&mut r);
            r
        },
        Err(reason) => failure(reason.as_str()),
    }
}

/// The skill catalog from the outcome of reading the skill marker file: its
/// cvar lines, sorted; or the two-line failure catalog with the reason.
pub fn get_skill_cvars(marker: Result<String, String>) -> (r: Vec<String>)
    ensures
        marker matches Ok(text) ==> sorted(texts(r@)) && texts(r@).to_multiset() == cvar_lines(
            text@,
        ).to_multiset(),
        marker matches Err(reason) ==> texts(r@) == failure_catalog(reason@),
{
    match marker {
        Ok(text) => parse_cfg(text.as_str()),
        Err(reason) => failure(reason.as_str()),
    }
}

/// `s` without leading and trailing white space.
pub fn trim_str(s: &str) -> (r: String)
    ensures
        r@ == trim(s@),
{
    let c = chars_of(s);
    let t = trim_chars(&c);
    string_of(t.as_slice())
}

/// The path of the default marker file in the recorded installation
/// directory `recorded`, which is trimmed first.
pub fn default_marker_path(recorded: &str) -> (r: String)
    ensures
        r@ == join(trim(recorded@), DEFAULT_MAP_SETTINGS@),
{
    let dir = trim_str(recorded);
    join_path(dir.as_str(), DEFAULT_MAP_SETTINGS)
}

/// The path of the skill marker file, from the path of the default one:
/// every occurrence of the default marker's name becomes the skill
/// marker's, then the result is trimmed.
pub fn skill_marker_path(default_path: &str) -> (r: String)
    ensures
        r@ == trim(replace_all(default_path@, DEFAULT_MAP_SETTINGS@, SKILL_SETTINGS@)),
{
    let s = chars_of(default_path);
    let p = chars_of(DEFAULT_MAP_SETTINGS);
    let t = chars_of(SKILL_SETTINGS);
    proof {
        reveal_strlit("default_map_settings.cfg");
    }
    let replaced = replace_chars(&s, &p, &t);
    let trimmed = trim_chars(&replaced);
    string_of(trimmed.as_slice())
}

} // verus!
