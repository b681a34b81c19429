//! The map catalog: which directory entries are maps, which of them a
//! whitelist keeps, and the name of the configuration file each one gets.
use vstd::prelude::*;
use crate::text::{chars_of, string_of, texts};

verus! {

/// `c` with ASCII upper-case letters mapped to lower case, as a code point.
pub open spec fn lower(c: char) -> u32 {
    let u = c as u32;
    if 0x41 <= u <= 0x5a {
        (u + 32) as u32
    } else {
        u
    }
}

/// Equality up to ASCII case, as `str::eq_ignore_ascii_case` decides it.
pub open spec fn eq_ignore_case(a: Seq<char>, b: Seq<char>) -> bool {
    a.len() == b.len() && forall|i: int| 0 <= i < a.len() ==> lower(a[i]) == lower(b[i])
}

/// Index of the last `.` in `s`, or -1.
pub open spec fn last_dot(s: Seq<char>) -> int
    decreases s.len(),
{
    if s.len() == 0 {
        -1
    } else if s.last() == '.' {
        s.len() - 1
    } else {
        last_dot(s.drop_last())
    }
}

/// Whether the file name `s` is split into a stem and an extension: it has a
/// `.` after its first character and is not `..`.
pub open spec fn has_extension(s: Seq<char>) -> bool {
    s != seq!['.', '.'] && last_dot(s) > 0
}

/// The stem of the file name `s`, as `Path::file_stem` gives it: the name up
/// to its last `.`, or the whole name where it has no extension.
pub open spec fn stem(s: Seq<char>) -> Seq<char> {
    if has_extension(s) {
        s.subrange(0, last_dot(s))
    } else {
        s
    }
}

/// The extension of the file name `s`, as `Path::extension` gives it.
pub open spec fn extension(s: Seq<char>) -> Option<Seq<char>> {
    if has_extension(s) {
        Some(s.subrange(last_dot(s) + 1, s.len() as int))
    } else {
        None
    }
}

/// Whether the file name `s` names a map: its extension is `bsp` in any case.
pub open spec fn is_bsp(s: Seq<char>) -> bool {
    match extension(s) {
        Some(e) => eq_ignore_case(e, seq!['b', 's', 'p']),
        None => false,
    }
}

/// Whether some whitelist entry, extension stripped, matches the stem of the
/// map file name `name` up to ASCII case.
pub open spec fn whitelisted(name: Seq<char>, wl: Seq<Seq<char>>) -> bool {
    exists|k: int| 0 <= k < wl.len() && eq_ignore_case(#[trigger] stem(wl[k]), stem(name))
}

/// Whether the whitelist `wl` keeps the map file name `name`: an empty
/// whitelist keeps every map.
pub open spec fn kept(name: Seq<char>, wl: Seq<Seq<char>>) -> bool {
    wl.len() == 0 || whitelisted(name, wl)
}

/// The map files among the directory entry names `listing`, in their order.
pub open spec fn map_files(listing: Seq<Seq<char>>) -> Seq<Seq<char>> {
    listing.filter(|n: Seq<char>| is_bsp(n))
}

/// The maps of `names` that the whitelist `wl` keeps, in their order.
pub open spec fn whitelist_filter(names: Seq<Seq<char>>, wl: Seq<Seq<char>>) -> Seq<Seq<char>> {
    names.filter(|n: Seq<char>| kept(n, wl))
}

pub open spec fn skill_suffix() -> Seq<char> {
    seq!['_', 's', 'k', 'l', '.', 'c', 'f', 'g']
}

pub open spec fn plain_suffix() -> Seq<char> {
    seq!['.', 'c', 'f', 'g']
}

/// The configuration file name for the map file name `name`: its stem
/// followed by `_skl.cfg` for the skill variant, or by `.cfg`.
pub open spec fn cfg_name(name: Seq<char>, skill: bool) -> Seq<char> {
    stem(name) + if skill {
        skill_suffix()
    } else {
        plain_suffix()
    }
}

fn lower_char(c: char) -> (r: u32)
    ensures
        r == lower(c),
{
    let u = c as u32;
    if 0x41 <= u && u <= 0x5a {
        u + 32
    } else {
        u
    }
}

/// Whether `a` and `b` are equal up to ASCII case.
pub fn eq_ignore_ascii_case(a: &Vec<char>, b: &Vec<char>) -> (r: bool)
    ensures
        r == eq_ignore_case(a@, b@),
{
    if a.len() != b.len() {
        return false;
    }
    let mut i: usize = 0;
    while i < a.len()
        invariant
            i <= a.len() == b.len(),
            forall|j: int| 0 <= j < i ==> lower(a@[j]) == lower(b@[j]),
        decreases a.len() - i,
    {
        if lower_char(a[i]) != lower_char(b[i]) {
            return false;
        }
        i += 1;
    }
    true
}

proof fn lemma_last_dot_bounds(s: Seq<char>)
    ensures
        -1 <= last_dot(s) < s.len(),
        last_dot(s) >= 0 ==> s[last_dot(s)] == '.',
    decreases s.len(),
{
    if s.len() > 0 && s.last() != '.' {
        lemma_last_dot_bounds(s.drop_last());
    }
}

fn find_last_dot(s: &Vec<char>) -> (r: Option<usize>)
    ensures
        r matches Some(k) ==> k == last_dot(s@),
        r is None ==> last_dot(s@) == -1,
{
    let mut j: usize = s.len();
    assert(s@.subrange(0, j as int) =~= s@);
    while j > 0
        invariant
            j <= s.len(),
            last_dot(s@) == last_dot(s@.subrange(0, j as int)),
        decreases j,
    {
        assert(s@.subrange(0, j as int).drop_last() =~= s@.subrange(0, j - 1));
        if s[j - 1] == '.' {
            return Some(j - 1);
        }
        j -= 1;
    }
    None
}

/// The index of the dot that splits the file name `s` into stem and
/// extension, if it has one.
fn split_dot(s: &Vec<char>) -> (r: Option<usize>)
    ensures
        r is Some <==> has_extension(s@),
        r matches Some(k) ==> k == last_dot(s@),
{
    proof {
        lemma_last_dot_bounds(s@);
    }
    if is_dot_dot(s) {
        return None;
    }
    match find_last_dot(s) {
        Some(k) => if k > 0 {
            Some(k)
        } else {
            None
        },
        None => None,
    }
}

fn is_dot_dot(s: &Vec<char>) -> (r: bool)
    ensures
        r == (s@ == seq!['.', '.']),
{
    if s.len() == 2 && s[0] == '.' && s[1] == '.' {
        assert(s@ =~= seq!['.', '.']);
        true
    } else {
        false
    }
}

/// The stem of the file name `s`.
pub fn stem_of(s: &Vec<char>) -> (r: Vec<char>)
    ensures
        r@ == stem(s@),
{
    proof {
        lemma_last_dot_bounds(s@);
    }
    match split_dot(s) {
        Some(k) => crate::text::slice_of(s, 0, k),
        None => s.clone(),
    }
}

/// Whether the file name `name` names a map file.
pub fn is_bsp_name(name: &str) -> (r: bool)
    ensures
        r == is_bsp(name@),
{
    let s = chars_of(name);
    proof {
        lemma_last_dot_bounds(s@);
    }
    match split_dot(&s) {
        Some(k) => {
            let ext = crate::text::slice_of(&s, k + 1, s.len());
            let bsp = vec!['b', 's', 'p'];
            assert(bsp@ =~= seq!['b', 's', 'p']);
            eq_ignore_ascii_case(&ext, &bsp)
        },
        None => false,
    }
}

/// The directory whose maps a request uses: the chosen one where it
/// exists, else the working directory `cwd`.
pub fn bsp_dir(chosen: String, chosen_exists: bool, cwd: String) -> (r: String)
    ensures
        r == if chosen_exists {
            chosen
        } else {
            cwd
        },
{
    if chosen_exists {
        chosen
    } else {
        cwd
    }
}

/// The map files among the directory entry names `names`, in their order.
pub fn load_bsps(names: &Vec<String>) -> (r: Vec<String>)
    ensures
        texts(r@) == map_files(texts(names@)),
{
    let mut r: Vec<String> = Vec::new();
    let mut i: usize = 0;
    while i < names.len()
        invariant
            i <= names.len(),
            texts(r@) == texts(names@).subrange(0, i as int).filter(|n: Seq<char>| is_bsp(n)),
        decreases names.len() - i,
    {
        let ghost pre = texts(names@).subrange(0, i as int);
        assert(texts(names@).subrange(0, i + 1).drop_last() =~= pre);
        reveal(Seq::filter);
        let ghost old_r = texts(r@);
        if is_bsp_name(names[i].as_str()) {
            r.push(names[i].clone());
            assert(texts(r@) =~= old_r.push(names@[i as int]@));
        }
        i += 1;
    }
    assert(texts(names@).subrange(0, names.len() as int) =~= texts(names@));
    r
}

/// Whether some entry of `wl`, extension stripped, matches `name_stem` up to
/// ASCII case.
fn matches_whitelist(name_stem: &Vec<char>, wl: &Vec<String>) -> (r: bool)
    ensures
        r == exists|k: int|
            0 <= k < wl.len() && eq_ignore_case(#[trigger] stem(texts(wl@)[k]), name_stem@),
{
    let mut k: usize = 0;
    while k < wl.len()
        invariant
            k <= wl.len(),
            forall|j: int| 0 <= j < k ==> !eq_ignore_case(#[trigger] stem(texts(wl@)[j]), name_stem@),
        decreases wl.len() - k,
    {
        let w = chars_of(wl[k].as_str());
        let ws = stem_of(&w);
        if eq_ignore_ascii_case(&ws, name_stem) {
            assert(stem(texts(wl@)[k as int]) == ws@);
            return true;
        }
        k += 1;
    }
    false
}

/// The maps of `bsps` that `whitelist` keeps, in their order: all of them
/// when the whitelist is empty, else those whose stem matches the stem of
/// some entry up to ASCII case.
pub fn filter_whitelist(bsps: &Vec<String>, whitelist: &Vec<String>) -> (r: Vec<String>)
    ensures
        texts(r@) == whitelist_filter(texts(bsps@), texts(whitelist@)),
{
    let ghost wl = texts(whitelist@);
    let mut r: Vec<String> = Vec::new();
    let mut i: usize = 0;
    while i < bsps.len()
        invariant
            i <= bsps.len(),
            wl == texts(whitelist@),
            texts(r@) == whitelist_filter(texts(bsps@).subrange(0, i as int), wl),
        decreases bsps.len() - i,
    {
        let ghost pre = texts(bsps@).subrange(0, i as int);
        assert(texts(bsps@).subrange(0, i + 1).drop_last() =~= pre);
        reveal(Seq::filter);
        let ghost old_r = texts(r@);
        let keep = if whitelist.len() == 0 {
            true
        } else {
            let name = chars_of(bsps[i].as_str());
            let name_stem = stem_of(&name);
            matches_whitelist(&name_stem, whitelist)
        };
        assert(keep == kept(texts(bsps@)[i as int], wl));
        if keep {
            r.push(bsps[i].clone());
            assert(texts(r@) =~= old_r.push(bsps@[i as int]@));
        }
        i += 1;
    }
    assert(texts(bsps@).subrange(0, bsps.len() as int) =~= texts(bsps@));
    r
}

/// The configuration file name for the map file name `name`.
pub fn cfg_file_name(name: &str, skill: bool) -> (r: String)
    ensures
        r@ == cfg_name(name@, skill),
{
    let s = chars_of(name);
    let mut out = stem_of(&s);
    let ghost st = out@;
    if skill {
        out.push('_');
        out.push('s');
        out.push('k');
        out.push('l');
    }
    out.push('.');
    out.push('c');
    out.push('f');
    out.push('g');
    assert(out@ =~= cfg_name(name@, skill));
    string_of(out.as_slice())
}

proof fn lemma_filter_keeps_all(s: Seq<Seq<char>>, pred: spec_fn(Seq<char>) -> bool)
    requires
        forall|x: Seq<char>| #[trigger] pred(x),
    ensures
        s.filter(pred) == s,
    decreases s.len(),
{
    reveal(Seq::filter);
    if s.len() > 0 {
        lemma_filter_keeps_all(s.drop_last(), pred);
        assert(s.drop_last().push(s.last()) =~= s);
    }
}

/// Whitelist filtering only ever narrows: what it keeps was in the input;
/// an empty whitelist keeps the input as it is; and a map is kept whenever
/// some entry matches its stem, whatever the case of either and whatever
/// extension the entry carries.
pub proof fn whitelist_filter_narrows(names: Seq<Seq<char>>, wl: Seq<Seq<char>>)
    ensures
        forall|n: Seq<char>| #[trigger]
            whitelist_filter(names, wl).contains(n) ==> names.contains(n),
        whitelist_filter(names, seq![]) == names,
        forall|n: Seq<char>, k: int|
            names.contains(n) && 0 <= k < wl.len() && eq_ignore_case(#[trigger] stem(wl[k]), stem(n))
                ==> #[trigger] whitelist_filter(names, wl).contains(n),
{
    let pred = |n: Seq<char>| kept(n, wl);
    assert forall|n: Seq<char>| #[trigger] whitelist_filter(names, wl).contains(n) implies names.contains(
        n,
    ) by {
        names.lemma_filter_contains_rev(pred, n);
    }
    let empty: Seq<Seq<char>> = seq![];
    lemma_filter_keeps_all(names, |n: Seq<char>| kept(n, empty));
    broadcast use vstd::seq_lib::group_filter_ensures;
    assert forall|n: Seq<char>, k: int|
        names.contains(n) && 0 <= k < wl.len() && eq_ignore_case(#[trigger] stem(wl[k]), stem(n))
            implies #[trigger] whitelist_filter(names, wl).contains(n) by {
        let i = choose|i: int| 0 <= i < names.len() && names[i] == n;
        assert(pred(names[i]));
    }
}

/// Whether some entry of the directory listing `names` has the extension
/// `ext`, up to ASCII case.
pub open spec fn has_type(names: Seq<Seq<char>>, ext: Seq<char>) -> bool {
    exists|i: int|
        0 <= i < names.len() && (#[trigger] extension(names[i]) matches Some(e) && eq_ignore_case(
            e,
            ext,
        ))
}

/// Whether some entry of the directory listing `names` has the extension
/// `ext`, up to ASCII case.
pub fn dir_contains_type(names: &Vec<String>, ext: &str) -> (r: bool)
    ensures
        r == has_type(texts(names@), ext@),
{
    let e = chars_of(ext);
    let mut i: usize = 0;
    while i < names.len()
        invariant
            i <= names.len(),
            e@ == ext@,
            forall|j: int|
                0 <= j < i ==> !(#[trigger] extension(texts(names@)[j]) matches Some(x)
                    && eq_ignore_case(x, ext@)),
        decreases names.len() - i,
    {
        let s = chars_of(names[i].as_str());
        proof {
            lemma_last_dot_bounds(s@);
        }
        match split_dot(&s) {
            Some(k) => {
                let x = crate::text::slice_of(&s, k + 1, s.len());
                if eq_ignore_ascii_case(&x, &e) {
                    assert(extension(texts(names@)[i as int]) == Some(x@));
                    return true;
                }
            },
            None => {},
        }
        i += 1;
    }
    false
}

pub open spec fn motd_suffix() -> Seq<char> {
    seq!['_', 'm', 'o', 't', 'd', '.', 't', 'x', 't']
}

/// The message-of-the-day file name for the directory entry `name`: its
/// stem followed by `_motd.txt`, where its extension is exactly `bsp`.
pub fn motd_file_name(name: &str) -> (r: Option<String>)
    ensures
        extension(name@) == Some(seq!['b', 's', 'p']) ==> (r matches Some(m) && m@ == stem(name@)
            + motd_suffix()),
        extension(name@) != Some(seq!['b', 's', 'p']) ==> r is None,
{
    let s = chars_of(name);
    proof {
        lemma_last_dot_bounds(s@);
    }
    match split_dot(&s) {
        Some(k) => {
            if s.len() - k == 4 && s[k + 1] == 'b' && s[k + 2] == 's' && s[k + 3] == 'p' {
                assert(s@.subrange(k + 1, s.len() as int) =~= seq!['b', 's', 'p']);
                let mut out = crate::text::slice_of(&s, 0, k);
                out.push('_');
                out.push('m');
                out.push('o');
                out.push('t');
                out.push('d');
                out.push('.');
                out.push('t');
                out.push('x');
                out.push('t');
                assert(out@ =~= stem(name@) + motd_suffix());
                Some(string_of(out.as_slice()))
            } else {
                proof {
                    let ext = s@.subrange(k + 1, s.len() as int);
                    if ext == seq!['b', 's', 'p'] {
                        assert(ext.len() == 3);
                        assert(ext[0] == 'b' && ext[1] == 's' && ext[2] == 'p');
                    }
                }
                None
            }
        },
        None => None,
    }
}

/// A map in the listing, with whether it is selected for the whitelist.
pub struct BspEntry {
    pub name: String,
    pub selected: bool,
}

impl BspEntry {
    /// The entry for the map file `name`, selected.
    pub fn new(name: String) -> (r: BspEntry)
        ensures
            r.name == name,
            r.selected,
    {
        BspEntry { name, selected: true }
    }

    /// Flips whether the entry is selected.
    pub fn toggle(&mut self)
        ensures
            final(self).name == old(self).name,
            final(self).selected == !old(self).selected,
    {
        self.selected = !self.selected;
    }
}

/// The names of the selected entries, in their order.
pub open spec fn selected_names(entries: Seq<BspEntry>) -> Seq<Seq<char>>
    decreases entries.len(),
{
    if entries.len() == 0 {
        seq![]
    } else if entries.last().selected {
        selected_names(entries.drop_last()).push(entries.last().name@)
    } else {
        selected_names(entries.drop_last())
    }
}

/// The whitelist that the selection in `entries` makes: the names of the
/// selected entries, in their order.
pub fn current_bsp_whitelist(entries: &Vec<BspEntry>) -> (r: Vec<String>)
    ensures
        texts(r@) == selected_names(entries@),
{
    let mut r: Vec<String> = Vec::new();
    let mut i: usize = 0;
    while i < entries.len()
        invariant
            i <= entries.len(),
            texts(r@) == selected_names(entries@.subrange(0, i as int)),
        decreases entries.len() - i,
    {
        assert(entries@.subrange(0, i + 1).drop_last() =~= entries@.subrange(0, i as int));
        let ghost old_r = texts(r@);
        if entries[i].selected {
            r.push(entries[i].name.clone());
            assert(texts(r@) =~= old_r.push(entries@[i as int].name@));
        }
        i += 1;
    }
    assert(entries@.subrange(0, entries.len() as int) =~= entries@);
    r
}

} // verus!
