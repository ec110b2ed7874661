//! The game library: manifests, workshop folders, `appworkshop_<appid>.acf`, and how
//! items are matched against Workshop metadata.
use vstd::prelude::*;
use vstd::utf8::encode_utf8;

use crate::sorting::is_stable_sort;
use crate::paths::{join_path, parent_of, path_exists, path_join, path_parent};
use crate::text::{
    chars_of, contains_char, ends_with, has_prefix, has_suffix, push_str, starts_with,
    string_from_chars,
};
use crate::types::{
    copy_opt_string, copy_strings, GameEntry, ItemStatus, WorkshopItem, WorkshopMetadata,
};

verus! {

/// Why a library lookup failed.
#[derive(Debug, PartialEq, Eq, Structural)]
pub enum LibraryError {
    /// The game's path has no grandparent directory.
    NotUnderSteamapps,
    /// `appworkshop_<appid>.acf` is not on disk.
    AcfNotFound,
    /// None of the places where Steam is looked for exists.
    SteamNotFound,
}

impl LibraryError {
    /// The message the error is reported with.
    pub fn message(&self, appid: &str) -> (res: String)
        ensures
            *self == LibraryError::NotUnderSteamapps ==> res@
                == "Game path is not under steamapps/common"@,
            *self == LibraryError::AcfNotFound ==> res@ == "Could not find appworkshop_"@ + appid@
                + ".acf"@,
            *self == LibraryError::SteamNotFound ==> res@
                == "Could not find Steam installation. Is Steam installed?"@,
    {
        match self {
            LibraryError::NotUnderSteamapps => String::from_str(
                "Game path is not under steamapps/common",
            ),
            LibraryError::AcfNotFound => {
                let mut v: Vec<char> = Vec::new();
                push_str(&mut v, "Could not find appworkshop_");
                push_str(&mut v, appid);
                push_str(&mut v, ".acf");
                string_from_chars(&v)
            },
            LibraryError::SteamNotFound => String::from_str(
                "Could not find Steam installation. Is Steam installed?",
            ),
        }
    }
}

/// Where Steam is looked for on Linux, in order: `~/.steam/steam` (the usual symlink),
/// then `~/.local/share/Steam`.
pub open spec fn linux_install_candidates(home: Seq<char>) -> Seq<Seq<char>> {
    seq![path_join(home, ".steam/steam"@), path_join(home, ".local/share/Steam"@)]
}

/// Where Steam is looked for on Windows, in order.
pub open spec fn windows_install_candidates() -> Seq<Seq<char>> {
    seq!["C:\\Program Files (x86)\\Steam"@, "C:\\Program Files\\Steam"@]
}

/// The Linux candidates under the home directory `home`.
pub fn install_candidates_linux(home: &str) -> (res: Vec<String>)
    ensures
        res@.map_values(|s: String| s@) == linux_install_candidates(home@),
{
    let mut res: Vec<String> = Vec::new();
    res.push(join_path(home, ".steam/steam"));
    res.push(join_path(home, ".local/share/Steam"));
    assert(res@.map_values(|s: String| s@) =~= linux_install_candidates(home@));
    res
}

/// The Windows candidates.
pub fn install_candidates_windows() -> (res: Vec<String>)
    ensures
        res@.map_values(|s: String| s@) == windows_install_candidates(),
{
    let mut res: Vec<String> = Vec::new();
    res.push(String::from_str("C:\\Program Files (x86)\\Steam"));
    res.push(String::from_str("C:\\Program Files\\Steam"));
    assert(res@.map_values(|s: String| s@) =~= windows_install_candidates());
    res
}

/// Picks the first candidate that exists (`exists[i]` tells whether `cands[i]` does).
pub fn choose_install_dir(cands: &Vec<String>, exists: &Vec<bool>) -> (res: Result<String, LibraryError>)
    requires
        exists@.len() == cands@.len(),
    ensures
        match res {
            Ok(p) => exists|i: int|
                0 <= i < cands@.len() && exists@[i] && cands@[i] == p && forall|j: int| 0 <= j < i ==> !exists@[j],
            Err(e) => e == LibraryError::SteamNotFound && forall|j: int| 0 <= j < cands@.len() ==> !exists@[j],
        },
{
    let mut i: usize = 0;
    while i < cands.len()
        invariant
            i <= cands.len(),
            exists@.len() == cands@.len(),
            forall|j: int| 0 <= j < i ==> !exists@[j],
        decreases cands.len() - i,
    {
        if exists[i] {
            return Ok(cands[i].clone());
        }
        i = i + 1;
    }
    Err(LibraryError::SteamNotFound)
}

/// `get_steam_install_dir`: the first of `cands` that exists now, or `SteamNotFound`.
pub fn find_steam_install_dir(cands: &Vec<String>) -> (res: Result<String, LibraryError>)
    ensures
        match res {
            Ok(p) => cands@.map_values(|s: String| s@).contains(p@),
            Err(e) => e == LibraryError::SteamNotFound,
        },
{
    let mut exists: Vec<bool> = Vec::new();
    let mut i: usize = 0;
    while i < cands.len()
        invariant
            i <= cands.len(),
            exists@.len() == i,
        decreases cands.len() - i,
    {
        exists.push(path_exists(cands[i].as_str()));
        i = i + 1;
    }
    let r = choose_install_dir(cands, &exists);
    proof {
        if r is Ok {
            let p = r->Ok_0;
            let i = choose|i: int|
                0 <= i < cands@.len() && exists@[i] && cands@[i] == p && forall|j: int| 0 <= j < i ==> !exists@[j];
            assert(cands@.map_values(|s: String| s@)[i] == p@);
        }
    }
    r
}

/// `<steam>/steamapps/libraryfolders.vdf`, which lists the library folders.
pub fn library_folders_file(steam_dir: &str) -> (res: String)
    ensures
        res@ == path_join(steam_dir@, "steamapps/libraryfolders.vdf"@),
{
    join_path(steam_dir, "steamapps/libraryfolders.vdf")
}

/// `<steam>/steamapps`, the default library folder.
pub fn default_library(steam_dir: &str) -> (res: String)
    ensures
        res@ == path_join(steam_dir@, "steamapps"@),
{
    join_path(steam_dir, "steamapps")
}

/// The `steamapps` directory of a game installed at `<steamapps>/common/<dir>`: the
/// parent of the parent of its path.
pub open spec fn steamapps_of(game_path: Seq<char>) -> Option<Seq<char>> {
    match path_parent(game_path) {
        Some(p) => path_parent(p),
        None => None,
    }
}

/// `<steamapps>/workshop/appworkshop_<appid>.acf`.
pub open spec fn acf_file_of(steamapps: Seq<char>, appid: Seq<char>) -> Seq<char> {
    path_join(
        path_join(steamapps, "workshop"@),
        "appworkshop_"@ + appid + ".acf"@,
    )
}

/// `<steamapps>/workshop/content/<appid>`.
pub open spec fn workshop_root_of(steamapps: Seq<char>, appid: Seq<char>) -> Seq<char> {
    path_join(path_join(path_join(steamapps, "workshop"@), "content"@), appid)
}

/// The `steamapps` directory of a game, or `NotUnderSteamapps`.
pub fn steamapps_dir(game: &GameEntry) -> (res: Result<String, LibraryError>)
    ensures
        match steamapps_of(game.path@) {
            Some(d) => res matches Ok(s) && s@ == d,
            None => res == Err::<String, LibraryError>(LibraryError::NotUnderSteamapps),
        },
{
    match parent_of(game.path.as_str()) {
        Some(p) => match parent_of(p.as_str()) {
            Some(d) => Ok(d),
            None => Err(LibraryError::NotUnderSteamapps),
        },
        None => Err(LibraryError::NotUnderSteamapps),
    }
}

/// Where the game's `appworkshop_<appid>.acf` belongs, whether or not it exists.
pub fn acf_path_candidate(game: &GameEntry) -> (res: Result<String, LibraryError>)
    ensures
        match steamapps_of(game.path@) {
            Some(d) => res matches Ok(s) && s@ == acf_file_of(d, game.appid@),
            None => res == Err::<String, LibraryError>(LibraryError::NotUnderSteamapps),
        },
{
    let d = steamapps_dir(game)?;
    let w = join_path(d.as_str(), "workshop");
    let mut name: Vec<char> = Vec::new();
    push_str(&mut name, "appworkshop_");
    push_str(&mut name, game.appid.as_str());
    push_str(&mut name, ".acf");
    let name = string_from_chars(&name);
    Ok(join_path(w.as_str(), name.as_str()))
}

/// Decides the lookup from the candidate path and whether it exists on disk.
pub fn acf_lookup_result(candidate: Result<String, LibraryError>, exists: bool) -> (res: Result<
    String,
    LibraryError,
>)
    ensures
        match candidate {
            Ok(p) => if exists {
                res == Ok::<String, LibraryError>(p)
            } else {
                res == Err::<String, LibraryError>(LibraryError::AcfNotFound)
            },
            Err(e) => res == Err::<String, LibraryError>(e),
        },
{
    match candidate {
        Ok(p) => if exists {
            Ok(p)
        } else {
            Err(LibraryError::AcfNotFound)
        },
        Err(e) => Err(e),
    }
}

/// The game's `appworkshop_<appid>.acf`, if it exists on disk.
pub fn find_acf_path(game: &GameEntry) -> (res: Result<String, LibraryError>)
    ensures
        match steamapps_of(game.path@) {
            Some(d) => match res {
                Ok(s) => s@ == acf_file_of(d, game.appid@),
                Err(e) => e == LibraryError::AcfNotFound,
            },
            None => res == Err::<String, LibraryError>(LibraryError::NotUnderSteamapps),
        },
{
    let candidate = acf_path_candidate(game);
    let exists = match &candidate {
        Ok(p) => path_exists(p.as_str()),
        Err(_) => false,
    };
    acf_lookup_result(candidate, exists)
}

/// The folder that holds the game's downloaded workshop items.
pub fn workshop_root(game: &GameEntry) -> (res: Result<String, LibraryError>)
    ensures
        match steamapps_of(game.path@) {
            Some(d) => res matches Ok(s) && s@ == workshop_root_of(d, game.appid@),
            None => res == Err::<String, LibraryError>(LibraryError::NotUnderSteamapps),
        },
{
    let d = steamapps_dir(game)?;
    let w = join_path(d.as_str(), "workshop");
    let c = join_path(w.as_str(), "content");
    Ok(join_path(c.as_str(), game.appid.as_str()))
}

/// Whether a file in a library folder is an app manifest.
pub open spec fn is_manifest_name(name: Seq<char>) -> bool {
    has_prefix(name, "appmanifest_"@) && has_suffix(name, ".acf"@)
}

/// `appmanifest_*.acf`.
pub fn is_app_manifest_file(name: &str) -> (res: bool)
    ensures
        res == is_manifest_name(name@),
{
    let cs = chars_of(name);
    starts_with(&cs, "appmanifest_") && ends_with(&cs, ".acf")
}

/// The games of `s`, keeping only the first game with each appid.
pub open spec fn first_per_appid(s: Seq<GameEntry>) -> Seq<GameEntry>
    decreases s.len(),
{
    if s.len() == 0 {
        s
    } else {
        let r = first_per_appid(s.drop_last());
        if exists|j: int| 0 <= j < s.len() - 1 && (#[trigger] s[j]).appid@ == s.last().appid@ {
            r
        } else {
            r.push(s.last())
        }
    }
}

/// Drops every game whose appid an earlier game already has.
pub fn dedup_games(games: Vec<GameEntry>) -> (res: Vec<GameEntry>)
    ensures
        res@ == first_per_appid(games@),
{
    let mut res: Vec<GameEntry> = Vec::new();
    let mut i: usize = 0;
    while i < games.len()
        invariant
            i <= games.len(),
            res@ == first_per_appid(games@.take(i as int)),
        decreases games.len() - i,
    {
        let ghost pre = games@.take(i as int);
        let ghost next = games@.take(i + 1);
        assert(next.drop_last() =~= pre);
        let mut seen = false;
        let mut j: usize = 0;
        while j < i
            invariant
                j <= i < games.len(),
                seen == exists|k: int| 0 <= k < j && (#[trigger] games@[k]).appid@ == games@[i as int].appid@,
            decreases i - j,
        {
            if games[j].appid == games[i].appid {
                seen = true;
            }
            j = j + 1;
        }
        assert(seen == exists|k: int| 0 <= k < next.len() - 1 && (#[trigger] next[k]).appid@ == next.last().appid@) by {
            if seen {
                let k = choose|k: int| 0 <= k < i && (#[trigger] games@[k]).appid@ == games@[i as int].appid@;
                assert(next[k] == games@[k]);
            }
            if exists|k: int| 0 <= k < next.len() - 1 && (#[trigger] next[k]).appid@ == next.last().appid@ {
                let k = choose|k: int| 0 <= k < next.len() - 1 && (#[trigger] next[k]).appid@ == next.last().appid@;
                assert(games@[k] == next[k]);
            }
        }
        if !seen {
            res.push(games[i].duplicate());
        }
        i = i + 1;
    }
    assert(games@.take(games.len() as int) =~= games@);
    res
}

/// The strings of `s`, keeping only the first occurrence of each.
pub open spec fn first_occurrences(s: Seq<Seq<char>>) -> Seq<Seq<char>>
    decreases s.len(),
{
    if s.len() == 0 {
        s
    } else {
        let r = first_occurrences(s.drop_last());
        if s.drop_last().contains(s.last()) {
            r
        } else {
            r.push(s.last())
        }
    }
}

/// Drops every string that occurs earlier in the list.
pub fn dedup_strings(v: &Vec<String>) -> (res: Vec<String>)
    ensures
        res@.map_values(|s: String| s@) == first_occurrences(v@.map_values(|s: String| s@)),
{
    let ghost vv = v@.map_values(|s: String| s@);
    let mut res: Vec<String> = Vec::new();
    let mut i: usize = 0;
    while i < v.len()
        invariant
            i <= v.len(),
            vv == v@.map_values(|s: String| s@),
            res@.map_values(|s: String| s@) == first_occurrences(vv.take(i as int)),
        decreases v.len() - i,
    {
        let ghost pre = vv.take(i as int);
        let ghost next = vv.take(i + 1);
        assert(next.drop_last() =~= pre);
        let mut seen = false;
        let mut j: usize = 0;
        while j < i
            invariant
                j <= i < v.len(),
                vv == v@.map_values(|s: String| s@),
                seen == exists|k: int| 0 <= k < j && vv[k] == vv[i as int],
            decreases i - j,
        {
            assert(vv[j as int] == v@[j as int]@ && vv[i as int] == v@[i as int]@);
            if v[j] == v[i] {
                seen = true;
            }
            j = j + 1;
        }
        assert(seen == pre.contains(next.last())) by {
            if seen {
                let k = choose|k: int| 0 <= k < i && vv[k] == vv[i as int];
                assert(pre[k] == vv[k]);
            }
            if pre.contains(next.last()) {
                let k = choose|k: int| 0 <= k < pre.len() && pre[k] == next.last();
                assert(vv[k] == pre[k]);
            }
        }
        let ghost old_res = res@;
        if !seen {
            res.push(v[i].clone());
            assert(res@.map_values(|s: String| s@) =~= old_res.map_values(|s: String| s@).push(
                vv[i as int],
            ));
        }
        i = i + 1;
    }
    assert(vv.take(v.len() as int) =~= vv);
    res
}

/// First index at which `needle` occurs in `haystack`.
pub open spec fn first_occurrence(haystack: Seq<u8>, needle: Seq<u8>) -> Option<int> {
    if exists|i: int| crate::text::occurs_at(haystack, needle, i) {
        Some(
            choose|i: int|
                crate::text::occurs_at(haystack, needle, i) && forall|j: int|
                    0 <= j < i ==> !crate::text::occurs_at(haystack, needle, j),
        )
    } else {
        None
    }
}

/// Index of the first occurrence of `needle` in `haystack` (`windows(..).position(..)`).
/// An empty needle is refused: `slice::windows(0)` panics.
pub fn find_bytes(haystack: &[u8], needle: &[u8]) -> (res: Option<usize>)
    requires
        needle.len() > 0,
    ensures
        match res {
            Some(i) => crate::text::occurs_at(haystack@, needle@, i as int) && forall|j: int|
                0 <= j < i ==> !crate::text::occurs_at(haystack@, needle@, j),
            None => forall|j: int| !crate::text::occurs_at(haystack@, needle@, j),
        },
{
    if needle.len() > haystack.len() {
        return None;
    }
    let last = haystack.len() - needle.len();
    let mut i: usize = 0;
    loop
        invariant
            needle.len() <= haystack.len(),
            last == haystack.len() - needle.len(),
            i <= last,
            forall|j: int| 0 <= j < i ==> !crate::text::occurs_at(haystack@, needle@, j),
        decreases last - i,
    {
        let mut k: usize = 0;
        let mut same = true;
        while k < needle.len()
            invariant
                i + needle.len() <= haystack.len(),
                k <= needle.len(),
                same == forall|m: int| 0 <= m < k ==> haystack@[i + m] == needle@[m],
            decreases needle.len() - k,
        {
            if haystack[i + k] != needle[k] {
                same = false;
            }
            k = k + 1;
        }
        if same {
            assert(haystack@.subrange(i as int, i + needle.len()) =~= needle@);
            return Some(i);
        } else {
            assert(!crate::text::occurs_at(haystack@, needle@, i as int)) by {
                if crate::text::occurs_at(haystack@, needle@, i as int) {
                    assert forall|m: int| 0 <= m < needle.len() implies haystack@[i + m]
                        == needle@[m] by {
                        assert(haystack@.subrange(i as int, i + needle.len())[m] == haystack@[i
                            + m]);
                    }
                }
            }
        }
        if i == last {
            assert forall|j: int| !crate::text::occurs_at(haystack@, needle@, j) by {
                if 0 <= j && j <= i {
                }
            }
            return None;
        }
        i = i + 1;
    }
}

/// The status of an item from its local and remote timestamps.
pub open spec fn status_of(local: Option<u64>, remote: Option<u64>) -> ItemStatus {
    match (local, remote) {
        (_, None) => ItemStatus::Unknown,
        (None, _) => ItemStatus::Unknown,
        (Some(l), Some(r)) => if l >= r {
            ItemStatus::UpToDate
        } else {
            ItemStatus::OutOfDate
        },
    }
}

/// Up to date when the local copy is at least as new as the Workshop's.
pub fn item_status(local: Option<u64>, remote: Option<u64>) -> (res: ItemStatus)
    ensures
        res == status_of(local, remote),
{
    match (local, remote) {
        (_, None) => ItemStatus::Unknown,
        (None, _) => ItemStatus::Unknown,
        (Some(l), Some(r)) => if l >= r {
            ItemStatus::UpToDate
        } else {
            ItemStatus::OutOfDate
        },
    }
}

/// A tag that names a game version: starts with an ASCII digit, contains a dot, and is
/// at most twelve bytes long in UTF-8 (so "1.49" and "2.6.1" pass, "2024" does not).
pub open spec fn is_version_tag_spec(tag: Seq<char>) -> bool {
    &&& tag.len() > 0 && '0' <= tag[0] <= '9'
    &&& tag.contains('.')
    &&& encode_utf8(tag).len() <= 12
}

/// Executable test for [`is_version_tag_spec`].
pub fn is_version_tag(tag: &String) -> (res: bool)
    ensures
        res == is_version_tag_spec(tag@),
{
    let cs = chars_of(tag.as_str());
    let starts_with_digit = cs.len() > 0 && '0' <= cs[0] && cs[0] <= '9';
    let has_dot = contains_char(&cs, '.');
    let is_short = utf8_len_at_most(&cs, 12);
    starts_with_digit && has_dot && is_short
}

/// Number of bytes in the UTF-8 encoding of `c`.
fn utf8_width(c: char) -> (n: usize)
    ensures
        n == encode_utf8(seq![c]).len(),
{
    let u = c as u32;
    assert(encode_utf8(seq![c]) =~= vstd::utf8::encode_scalar(u) + encode_utf8(seq![c].drop_first()));
    assert(encode_utf8(seq![c].drop_first()) =~= Seq::<u8>::empty());
    if u <= 0x7F {
        1
    } else if u <= 0x7FF {
        2
    } else if u <= 0xFFFF {
        proof {
            vstd::utf8::char_is_scalar(c);
        }
        3
    } else {
        4
    }
}

/// Whether the UTF-8 encoding of `cs` has at most `limit` bytes (`str::len() <= limit`).
pub fn utf8_len_at_most(cs: &[char], limit: usize) -> (res: bool)
    ensures
        res == (encode_utf8(cs@).len() <= limit),
{
    let mut total: usize = 0;
    let mut i: usize = cs.len();
    assert(cs@.skip(cs.len() as int) =~= Seq::<char>::empty());
    while i > 0
        invariant
            i <= cs.len(),
            total <= limit,
            total == encode_utf8(cs@.skip(i as int)).len(),
        decreases i,
    {
        let w = utf8_width(cs[i - 1]);
        assert(cs@.skip(i - 1).drop_first() =~= cs@.skip(i as int));
        assert(encode_utf8(cs@.skip(i - 1)) =~= vstd::utf8::encode_scalar(cs@[i - 1] as u32) + encode_utf8(cs@.skip(i as int)));
        assert(encode_utf8(seq![cs@[i - 1]]) =~= vstd::utf8::encode_scalar(cs@[i - 1] as u32) + encode_utf8(seq![cs@[i - 1]].drop_first()));
        assert(encode_utf8(seq![cs@[i - 1]].drop_first()) =~= Seq::<u8>::empty());
        if w > limit - total {
            proof {
                lemma_encode_utf8_prefix_len(cs@, (i - 1) as int);
            }
            return false;
        }
        total = total + w;
        i = i - 1;
    }
    assert(cs@.skip(0) =~= cs@);
    true
}

/// The encoding of a suffix is no longer than the encoding of the whole.
proof fn lemma_encode_utf8_prefix_len(s: Seq<char>, i: int)
    requires
        0 <= i <= s.len(),
    ensures
        encode_utf8(s.skip(i)).len() <= encode_utf8(s).len(),
    decreases i,
{
    if i > 0 {
        lemma_encode_utf8_prefix_len(s, i - 1);
        assert(s.skip(i - 1).drop_first() =~= s.skip(i));
        assert(encode_utf8(s.skip(i - 1)) == vstd::utf8::encode_scalar(s.skip(i - 1)[0] as u32)
            + encode_utf8(s.skip(i)));
    } else {
        assert(s.skip(0) =~= s);
    }
}

/// The version tags among `tags`, in order.
pub open spec fn version_tags(tags: Seq<String>) -> Seq<String> {
    tags.filter(|t: String| is_version_tag_spec(t@))
}

/// Keeps the tags that name game versions.
pub fn supported_versions(tags: &Vec<String>) -> (res: Vec<String>)
    ensures
        res@ == version_tags(tags@),
{
    let mut res: Vec<String> = Vec::new();
    let mut i: usize = 0;
    while i < tags.len()
        invariant
            i <= tags.len(),
            res@ == version_tags(tags@.take(i as int)),
        decreases tags.len() - i,
    {
        assert(tags@.take(i + 1).drop_last() =~= tags@.take(i as int));
        reveal_with_fuel(Seq::filter, 1);
        if is_version_tag(&tags[i]) {
            res.push(tags[i].clone());
        }
        i = i + 1;
    }
    assert(tags@.take(tags.len() as int) =~= tags@);
    res
}

/// Workshop metadata for one published file id.
#[derive(Debug)]
pub struct MetadataEntry {
    pub id: String,
    pub metadata: WorkshopMetadata,
}

/// Index of the last entry for `id` (later answers replace earlier ones, as with
/// `HashMap::insert`).
pub open spec fn last_entry_for(entries: Seq<MetadataEntry>, id: Seq<char>) -> Option<int>
    decreases entries.len(),
{
    if entries.len() == 0 {
        None
    } else if entries.last().id@ == id {
        Some(entries.len() - 1)
    } else {
        last_entry_for(entries.drop_last(), id)
    }
}

pub proof fn lemma_last_entry_for(entries: Seq<MetadataEntry>, id: Seq<char>)
    ensures
        last_entry_for(entries, id) matches Some(k) ==> 0 <= k < entries.len() && entries[k].id@
            == id && forall|j: int| k < j < entries.len() ==> entries[j].id@ != id,
        last_entry_for(entries, id) is None ==> forall|j: int|
            0 <= j < entries.len() ==> entries[j].id@ != id,
    decreases entries.len(),
{
    if entries.len() > 0 && entries.last().id@ != id {
        lemma_last_entry_for(entries.drop_last(), id);
        assert forall|j: int| 0 <= j < entries.len() - 1 implies entries[j] == entries.drop_last()[j] by {}
    }
}

/// Looks up the metadata for `id`.
pub fn lookup_metadata<'a>(entries: &'a Vec<MetadataEntry>, id: &String) -> (res: Option<
    &'a WorkshopMetadata,
>)
    ensures
        match last_entry_for(entries@, id@) {
            Some(k) => res == Some(&entries@[k].metadata),
            None => res is None,
        },
{
    let mut i = entries.len();
    assert(entries@.take(i as int) =~= entries@);
    while i > 0
        invariant
            i <= entries.len(),
            last_entry_for(entries@, id@) == last_entry_for(entries@.take(i as int), id@),
        decreases i,
    {
        assert(entries@.take(i as int).drop_last() =~= entries@.take(i - 1));
        assert(entries@.take(i as int).last() == entries@[i - 1]);
        if entries[i - 1].id == *id {
            return Some(&entries[i - 1].metadata);
        }
        i = i - 1;
    }
    None
}

/// The item after the Workshop's answer about it: title (if the item has no name yet),
/// remote timestamp, compatibility flag, preview, version tags, and the status that
/// follows from the timestamps.
pub open spec fn enriched(item: WorkshopItem, meta: Option<WorkshopMetadata>) -> (
    Option<String>,
    Option<u64>,
    bool,
    Option<String>,
    Seq<String>,
    ItemStatus,
) {
    match meta {
        Some(m) => {
            let name = if item.name is None {
                m.title
            } else {
                item.name
            };
            (
                name,
                m.time_updated,
                m.incompatible,
                m.preview_url,
                version_tags(m.tags@),
                status_of(item.local_timestamp, m.time_updated),
            )
        },
        None => (
            item.name,
            item.remote_timestamp,
            item.incompatible,
            item.preview_url,
            item.supported_versions@,
            status_of(item.local_timestamp, item.remote_timestamp),
        ),
    }
}

/// Whether `out` is `item` enriched with `meta` (the other fields unchanged).
pub open spec fn is_enriched(out: WorkshopItem, item: WorkshopItem, meta: Option<WorkshopMetadata>) -> bool {
    let e = enriched(item, meta);
    &&& out.item_id == item.item_id
    &&& out.path == item.path
    &&& out.local_timestamp == item.local_timestamp
    &&& out.disk_size == item.disk_size
    &&& out.selected == item.selected
    &&& out.name == e.0
    &&& out.remote_timestamp == e.1
    &&& out.incompatible == e.2
    &&& out.preview_url == e.3
    &&& out.supported_versions@ == e.4
    &&& out.status == e.5
}

/// Applies the Workshop's answer (if any) to one item.
pub fn apply_metadata(item: WorkshopItem, meta: Option<&WorkshopMetadata>) -> (res: WorkshopItem)
    ensures
        is_enriched(
            res,
            item,
            match meta {
                Some(m) => Some(*m),
                None => None,
            },
        ),
{
    let mut item = item;
    if let Some(m) = meta {
        if item.name.is_none() {
            item.name = copy_opt_string(&m.title);
        }
        item.remote_timestamp = m.time_updated;
        item.incompatible = m.incompatible;
        item.preview_url = copy_opt_string(&m.preview_url);
        item.supported_versions = supported_versions(&m.tags);
    }
    item.status = item_status(item.local_timestamp, item.remote_timestamp);
    item
}

/// The metadata entry (if any) that applies to `item`.
pub open spec fn meta_for(entries: Seq<MetadataEntry>, item: WorkshopItem) -> Option<WorkshopMetadata> {
    match last_entry_for(entries, item.item_id@) {
        Some(k) => Some(entries[k].metadata),
        None => None,
    }
}

/// Enriches every item with the metadata fetched for its id, keeping the order.
pub fn enrich_items(items: Vec<WorkshopItem>, entries: &Vec<MetadataEntry>) -> (res: Vec<WorkshopItem>)
    ensures
        res@.len() == items@.len(),
        forall|i: int| 0 <= i < items@.len() ==> is_enriched(#[trigger] res@[i], items@[i], meta_for(entries@, items@[i])),
{
    let ghost orig = items@;
    let mut items = items;
    let mut rev: Vec<WorkshopItem> = Vec::new();
    while items.len() > 0
        invariant
            items@ == orig.take(items@.len() as int),
            rev@.len() + items@.len() == orig.len(),
            forall|j: int| 0 <= j < rev@.len() ==> is_enriched(#[trigger] rev@[j], orig[orig.len() - 1 - j], meta_for(entries@, orig[orig.len() - 1 - j])),
        decreases items@.len(),
    {
        let item = items.pop().unwrap();
        let meta = lookup_metadata(entries, &item.item_id);
        let out = apply_metadata(item, meta);
        rev.push(out);
        assert(items@ =~= orig.take(items@.len() as int));
    }
    let mut res: Vec<WorkshopItem> = Vec::new();
    while rev.len() > 0
        invariant
            res@.len() + rev@.len() == orig.len(),
            forall|j: int| 0 <= j < rev@.len() ==> is_enriched(#[trigger] rev@[j], orig[orig.len() - 1 - j], meta_for(entries@, orig[orig.len() - 1 - j])),
            forall|j: int| 0 <= j < res@.len() ==> is_enriched(#[trigger] res@[j], orig[j], meta_for(entries@, orig[j])),
        decreases rev@.len(),
    {
        let ghost k = rev@.len() - 1;
        let out = rev.pop().unwrap();
        assert(is_enriched(out, orig[orig.len() - 1 - k], meta_for(entries@, orig[orig.len() - 1 - k])));
        res.push(out);
    }
    res
}

/// How many ids go into one metadata request.
pub const BATCH_SIZE: usize = 100;

/// `ids.chunks(100)`: consecutive slices of at most 100 ids, covering all of them.
pub fn batch_ids(ids: &Vec<String>) -> (res: Vec<Vec<String>>)
    ensures
        res@.len() == (ids@.len() + 99) / 100,
        forall|k: int| 0 <= k < res@.len() ==> (#[trigger] res@[k])@ == ids@.subrange(
            100 * k,
            if 100 * k + 100 <= ids@.len() { 100 * k + 100 } else { ids@.len() as int },
        ),
{
    let mut res: Vec<Vec<String>> = Vec::new();
    let mut start: usize = 0;
    while start < ids.len()
        invariant
            start == 100 * res@.len(),
            start <= ids.len() || res@.len() == (ids@.len() + 99) / 100,
            res@.len() <= (ids@.len() + 99) / 100,
            start < ids.len() ==> res@.len() < (ids@.len() + 99) / 100,
            forall|k: int| 0 <= k < res@.len() ==> (#[trigger] res@[k])@ == ids@.subrange(
                100 * k,
                if 100 * k + 100 <= ids@.len() { 100 * k + 100 } else { ids@.len() as int },
            ),
        decreases ids.len() - start,
    {
        let end = if ids.len() - start >= BATCH_SIZE {
            start + BATCH_SIZE
        } else {
            ids.len()
        };
        let mut batch: Vec<String> = Vec::new();
        let mut i = start;
        while i < end
            invariant
                start <= i <= end <= ids.len(),
                batch@ == ids@.subrange(start as int, i as int),
            decreases end - i,
        {
            batch.push(ids[i].clone());
            i = i + 1;
            assert(batch@ =~= ids@.subrange(start as int, i as int));
        }
        res.push(batch);
        if end == ids.len() {
            assert(res@.len() == (ids@.len() + 99) / 100);
            return res;
        }
        start = end;
    }
    res
}

} // verus!

verus! {

/// Sort key of a string: its code points. UTF-8 byte order, which `Path` and `str`
/// comparisons use, is the same as code-point order.
pub open spec fn char_key(s: Seq<char>) -> Seq<u64> {
    s.map_values(|c: char| c as u32 as u64)
}

/// The sort key of a string.
pub fn chars_key(s: &[char]) -> (res: Vec<u64>)
    ensures
        res@ == char_key(s@),
{
    let mut res: Vec<u64> = Vec::new();
    let mut i: usize = 0;
    while i < s.len()
        invariant
            i <= s.len(),
            res@ == char_key(s@.take(i as int)),
        decreases s.len() - i,
    {
        res.push(s[i] as u32 as u64);
        i = i + 1;
        assert(res@ =~= char_key(s@.take(i as int)));
    }
    assert(s@.take(s.len() as int) =~= s@);
    res
}

/// A sub-folder of a game's workshop folder, as listed on disk.
#[derive(Debug)]
pub struct ItemDir {
    /// The folder's name: the workshop item id.
    pub name: String,
    /// Total size of the files below it, in bytes.
    pub disk_size: u64,
    /// Newest modification time of the files below it, in seconds since the epoch.
    pub local_timestamp: Option<u64>,
}

/// The item a workshop folder stands for, before any metadata is known.
pub open spec fn fresh_item(root: Seq<char>, d: ItemDir, item: WorkshopItem) -> bool {
    &&& item.item_id@ == d.name@
    &&& item.name is None
    &&& item.path@ == path_join(root, d.name@)
    &&& item.local_timestamp == d.local_timestamp
    &&& item.remote_timestamp is None
    &&& item.disk_size == d.disk_size
    &&& item.status == ItemStatus::Unknown
    &&& !item.incompatible
    &&& item.supported_versions@.len() == 0
    &&& item.preview_url is None
    &&& !item.selected
}

/// The sort keys of the items' paths.
pub open spec fn item_path_keys(root: Seq<char>, dirs: Seq<ItemDir>) -> Seq<Seq<u64>> {
    dirs.map_values(|d: ItemDir| char_key(path_join(root, d.name@)))
}

/// The items of a game's workshop folder, sorted by path (stable), as
/// `get_workshop_entries` lists them.
pub fn workshop_items_from_dirs(root: &str, dirs: Vec<ItemDir>) -> (res: Vec<WorkshopItem>)
    ensures
        exists|perm: Seq<usize>|
            #[trigger] is_stable_sort(item_path_keys(root@, dirs@), false, perm) && res@.len() == perm.len() && forall|k: int|
                0 <= k < perm.len() ==> fresh_item(root@, dirs@[perm[k] as int], #[trigger] res@[k]),
{
    let ghost pks = item_path_keys(root@, dirs@);
    let root_cs = chars_of(root);
    let mut keys: Vec<Vec<u64>> = Vec::new();
    let mut i: usize = 0;
    while i < dirs.len()
        invariant
            i <= dirs.len(),
            root_cs@ == root@,
            pks == item_path_keys(root@, dirs@),
            keys@.len() == i,
            forall|k: int| 0 <= k < i ==> (#[trigger] keys@[k])@ == pks[k],
        decreases dirs.len() - i,
    {
        let name = chars_of(dirs[i].name.as_str());
        let p = crate::paths::join_chars(&root_cs, &name);
        keys.push(chars_key(&p));
        i = i + 1;
    }
    assert(keys@.map_values(|k: Vec<u64>| k@) =~= pks);
    let perm = crate::sorting::stable_sort_indices(&keys, false);
    proof {
        crate::sorting::lemma_stable_sort_distinct(pks, false, perm@);
    }
    let mut res: Vec<WorkshopItem> = Vec::new();
    let mut k: usize = 0;
    while k < perm.len()
        invariant
            k <= perm@.len(),
            perm@.len() == dirs@.len(),
            is_stable_sort(pks, false, perm@),
            res@.len() == k,
            forall|m: int| 0 <= m < k ==> fresh_item(root@, dirs@[perm@[m] as int], #[trigger] res@[m]),
        decreases perm@.len() - k,
    {
        let d = &dirs[perm[k]];
        let item = WorkshopItem {
            item_id: d.name.clone(),
            name: None,
            path: join_path(root, d.name.as_str()),
            local_timestamp: d.local_timestamp,
            remote_timestamp: None,
            disk_size: d.disk_size,
            status: ItemStatus::Unknown,
            incompatible: false,
            supported_versions: Vec::new(),
            preview_url: None,
            selected: false,
        };
        res.push(item);
        k = k + 1;
    }
    res
}

} // verus!

verus! {

/// What `first_occurrence` returns is an occurrence with none before it.
pub proof fn lemma_first_occurrence_found(h: Seq<u8>, n: Seq<u8>)
    ensures
        first_occurrence(h, n) matches Some(i) ==> crate::text::occurs_at(h, n, i) && forall|j: int|
            0 <= j < i ==> !crate::text::occurs_at(h, n, j),
{
    if exists|i: int| crate::text::occurs_at(h, n, i) {
        let i0 = choose|i: int| crate::text::occurs_at(h, n, i);
        lemma_least_occurrence(h, n, i0);
    }
}

proof fn lemma_least_occurrence(h: Seq<u8>, n: Seq<u8>, i: int)
    requires
        crate::text::occurs_at(h, n, i),
    ensures
        exists|c: int| crate::text::occurs_at(h, n, c) && forall|j: int| 0 <= j < c ==> !crate::text::occurs_at(h, n, j),
    decreases i,
{
    if exists|j: int| 0 <= j < i && crate::text::occurs_at(h, n, j) {
        let j = choose|j: int| 0 <= j < i && crate::text::occurs_at(h, n, j);
        lemma_least_occurrence(h, n, j);
    } else {
        assert(crate::text::occurs_at(h, n, i) && forall|j: int| 0 <= j < i ==> !crate::text::occurs_at(h, n, j));
    }
}

/// A copy of `data[start..end]`.
pub fn byte_range(data: &[u8], start: usize, end: usize) -> (res: Vec<u8>)
    requires
        start <= end <= data.len(),
    ensures
        res@ == data@.subrange(start as int, end as int),
{
    let mut res: Vec<u8> = Vec::new();
    let mut i = start;
    while i < end
        invariant
            start <= i <= end <= data.len(),
            res@ == data@.subrange(start as int, i as int),
        decreases end - i,
    {
        res.push(data[i]);
        i = i + 1;
        assert(res@ =~= data@.subrange(start as int, i as int));
    }
    res
}

} // verus!
