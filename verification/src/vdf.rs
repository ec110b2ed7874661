//! Steam's KeyValues (VDF) text files: `libraryfolders.vdf` and `appmanifest_*.acf`.
use vstd::prelude::*;

use crate::library::first_occurrences;
use crate::paths::{join_path, path_join};
use crate::text::chars_of;
use crate::types::GameEntry;

verus! {

/// A KeyValues value: a string, or an object mapping keys to lists of values (keys in
/// ascending order, each at most once, as the parser's `BTreeMap` holds them).
#[derive(Debug)]
pub enum VdfValue {
    Str(String),
    Obj(Vec<VdfPair>),
}

/// One key of an object with all the values given for it.
#[derive(Debug)]
pub struct VdfPair {
    pub key: String,
    pub values: Vec<VdfValue>,
}

/// The value of the top-level pair that `keyvalues_parser::parse` reads from `text`, or
/// `None` where it reports a syntax error.
pub uninterp spec fn vdf_document(text: Seq<char>) -> Option<VdfValue>;

/// `keyvalues_parser::parse`, keeping the value of the top-level pair (its key and any
/// `#base` lines are not used). Claimed: the result is the parser's, converted one for
/// one, and depends on the text alone.
#[verifier::external_body]
pub(crate) fn parse_vdf(text: &str) -> (res: Option<VdfValue>)
    ensures
        res == vdf_document(text@),
{
    keyvalues_parser::parse(text).ok().map(|p| vdf_model(&keyvalues_parser::Vdf::from(p).value))
}

/// The parser's value type, carried through the conversion below.
#[verifier::external_type_specification]
#[verifier::external_body]
pub struct ExParsedVdfValue<'a>(keyvalues_parser::Value<'a>);

/// Converts a parsed `keyvalues_parser::Value` into [`VdfValue`], one for one.
#[verifier::external_body]
fn vdf_model(v: &keyvalues_parser::Value<'_>) -> VdfValue {
    match v {
        keyvalues_parser::Value::Str(s) => VdfValue::Str(s.to_string()),
        keyvalues_parser::Value::Obj(o) => VdfValue::Obj(
            o.iter().map(|(k, vs)| VdfPair { key: k.to_string(), values: vs.iter().map(vdf_model).collect() }).collect(),
        ),
    }
}

/// The values given for `key` in an object (`BTreeMap::get`).
pub open spec fn obj_get(pairs: Seq<VdfPair>, key: Seq<char>) -> Option<Seq<VdfValue>>
    decreases pairs.len(),
{
    if pairs.len() == 0 {
        None
    } else if pairs[0].key@ == key {
        Some(pairs[0].values@)
    } else {
        obj_get(pairs.drop_first(), key)
    }
}

/// The string that is the first value given for `key`, if there is one.
pub open spec fn first_str(pairs: Seq<VdfPair>, key: Seq<char>) -> Option<Seq<char>> {
    match obj_get(pairs, key) {
        Some(vs) => if vs.len() > 0 {
            match vs[0] {
                VdfValue::Str(s) => Some(s@),
                VdfValue::Obj(_) => None,
            }
        } else {
            None
        },
        None => None,
    }
}

fn obj_get_exec<'a>(pairs: &'a Vec<VdfPair>, key: &str) -> (res: Option<&'a Vec<VdfValue>>)
    ensures
        match obj_get(pairs@, key@) {
            Some(vs) => res matches Some(r) && r@ == vs,
            None => res is None,
        },
{
    let k = String::from_str(key);
    let mut i: usize = 0;
    assert(pairs@.skip(0) =~= pairs@);
    while i < pairs.len()
        invariant
            i <= pairs.len(),
            k@ == key@,
            obj_get(pairs@, key@) == obj_get(pairs@.skip(i as int), key@),
        decreases pairs.len() - i,
    {
        assert(pairs@.skip(i as int)[0] == pairs@[i as int]);
        assert(pairs@.skip(i as int).drop_first() =~= pairs@.skip(i + 1));
        if pairs[i].key == k {
            return Some(&pairs[i].values);
        }
        i = i + 1;
    }
    assert(pairs@.skip(i as int) =~= Seq::<VdfPair>::empty());
    None
}

fn first_str_exec(pairs: &Vec<VdfPair>, key: &str) -> (res: Option<String>)
    ensures
        match first_str(pairs@, key@) {
            Some(s) => res matches Some(r) && r@ == s,
            None => res is None,
        },
{
    match obj_get_exec(pairs, key) {
        Some(vs) => if vs.len() > 0 {
            match &vs[0] {
                VdfValue::Str(s) => Some(s.clone()),
                VdfValue::Obj(_) => None,
            }
        } else {
            None
        },
        None => None,
    }
}

/// The library path a `libraryfolders.vdf` entry names, with `steamapps` appended: the
/// entry's first value must be an object whose first `path` value is a string.
pub open spec fn library_entry_path(p: VdfPair) -> Option<Seq<char>> {
    if p.values@.len() > 0 {
        match p.values@[0] {
            VdfValue::Obj(inner) => match first_str(inner@, "path"@) {
                Some(s) => Some(path_join(s, "steamapps"@)),
                None => None,
            },
            VdfValue::Str(_) => None,
        }
    } else {
        None
    }
}

/// The library paths of the entries of `pairs`, in order, skipping those without one.
pub open spec fn library_paths_of(pairs: Seq<VdfPair>) -> Seq<Seq<char>>
    decreases pairs.len(),
{
    if pairs.len() == 0 {
        Seq::empty()
    } else {
        let rest = library_paths_of(pairs.drop_last());
        match library_entry_path(pairs.last()) {
            Some(p) => rest.push(p),
            None => rest,
        }
    }
}

/// The `steamapps` folders that a `libraryfolders.vdf` document lists (none when it does
/// not parse or is not an object).
pub open spec fn library_paths_in(doc: Option<VdfValue>) -> Seq<Seq<char>> {
    match doc {
        Some(VdfValue::Obj(pairs)) => library_paths_of(pairs@),
        _ => Seq::empty(),
    }
}

/// The `steamapps` folders listed in the text of `libraryfolders.vdf`, in key order.
pub fn extract_library_paths(contents: &str) -> (res: Vec<String>)
    ensures
        res@.map_values(|s: String| s@) == library_paths_in(vdf_document(contents@)),
{
    let doc = parse_vdf(contents);
    library_paths_from(&doc)
}

/// The `steamapps` folders that a parsed `libraryfolders.vdf` lists.
pub fn library_paths_from(doc: &Option<VdfValue>) -> (res: Vec<String>)
    ensures
        res@.map_values(|s: String| s@) == library_paths_in(*doc),
{
    let mut res: Vec<String> = Vec::new();
    let pairs = match doc {
        Some(VdfValue::Obj(pairs)) => pairs,
        _ => {
            assert(res@.map_values(|s: String| s@) =~= Seq::<Seq<char>>::empty());
            return res;
        },
    };
    let mut i: usize = 0;
    while i < pairs.len()
        invariant
            i <= pairs.len(),
            res@.map_values(|s: String| s@) == library_paths_of(pairs@.take(i as int)),
        decreases pairs.len() - i,
    {
        assert(pairs@.take(i + 1).drop_last() =~= pairs@.take(i as int));
        assert(pairs@.take(i + 1).last() == pairs@[i as int]);
        let p = &pairs[i];
        let ghost old_res = res@;
        if p.values.len() > 0 {
            if let VdfValue::Obj(inner) = &p.values[0] {
                if let Some(s) = first_str_exec(inner, "path") {
                    res.push(join_path(s.as_str(), "steamapps"));
                    assert(res@.map_values(|s: String| s@) =~= old_res.map_values(|s: String| s@).push(res@.last()@));
                }
            }
        }
        i = i + 1;
    }
    assert(pairs@.take(pairs.len() as int) =~= pairs@);
    res
}

/// The library folders to scan: the default `steamapps` folder first, then each listed
/// folder that is not already there (paths as the caller canonicalized them).
pub fn library_folders(default_dir: String, listed: Vec<String>) -> (res: Vec<String>)
    ensures
        res@.map_values(|s: String| s@) == first_occurrences(
            seq![default_dir@] + listed@.map_values(|s: String| s@),
        ),
{
    let ghost lv = listed@;
    let mut all: Vec<String> = Vec::new();
    all.push(default_dir);
    let ghost d = all@;
    let mut listed = listed;
    all.append(&mut listed);
    assert(all@.map_values(|s: String| s@) =~= seq![d[0]@] + lv.map_values(|s: String| s@));
    crate::library::dedup_strings(&all)
}

/// The game an `appmanifest_*.acf` describes: `appid` and `installdir` are required,
/// `name` and `buildid` optional; the install path is `<library>/common/<installdir>`.
pub open spec fn manifest_game(doc: Option<VdfValue>, library: Seq<char>) -> Option<(Seq<char>, Option<Seq<char>>, Seq<char>, Option<Seq<char>>)> {
    match doc {
        Some(VdfValue::Obj(pairs)) => match (first_str(pairs@, "appid"@), first_str(pairs@, "installdir"@)) {
            (Some(appid), Some(dir)) => Some(
                (
                    appid,
                    first_str(pairs@, "name"@),
                    path_join(path_join(library, "common"@), dir),
                    first_str(pairs@, "buildid"@),
                ),
            ),
            _ => None,
        },
        _ => None,
    }
}

/// Whether `g` is the game that `m` describes.
pub open spec fn game_matches(g: GameEntry, m: (Seq<char>, Option<Seq<char>>, Seq<char>, Option<Seq<char>>)) -> bool {
    &&& g.appid@ == m.0
    &&& (match g.name { Some(n) => m.1 == Some(n@), None => m.1 is None })
    &&& g.path@ == m.2
    &&& (match g.build_id { Some(b) => m.3 == Some(b@), None => m.3 is None })
}

fn opt_view(o: &Option<String>) -> (res: Option<String>)
    ensures
        res == *o,
{
    crate::types::copy_opt_string(o)
}

/// Reads the game from a parsed app manifest found in `library`.
pub fn game_from_manifest(doc: &Option<VdfValue>, library: &str) -> (res: Option<GameEntry>)
    ensures
        match manifest_game(*doc, library@) {
            Some(m) => res matches Some(g) && game_matches(g, m),
            None => res is None,
        },
{
    let pairs = match doc {
        Some(VdfValue::Obj(pairs)) => pairs,
        _ => return None,
    };
    let appid = first_str_exec(pairs, "appid");
    let name = first_str_exec(pairs, "name");
    let install_dir = first_str_exec(pairs, "installdir");
    let build_id = first_str_exec(pairs, "buildid");
    match (appid, install_dir) {
        (Some(appid), Some(dir)) => {
            let common = join_path(library, "common");
            let path = join_path(common.as_str(), dir.as_str());
            let name = opt_view(&name);
            Some(GameEntry { appid, name, path, build_id })
        },
        _ => None,
    }
}

/// `parse_app_manifest`: the game described by the text of an app manifest in `library`.
pub fn parse_app_manifest(contents: &str, library: &str) -> (res: Option<GameEntry>)
    ensures
        match manifest_game(vdf_document(contents@), library@) {
            Some(m) => res matches Some(g) && game_matches(g, m),
            None => res is None,
        },
{
    let doc = parse_vdf(contents);
    game_from_manifest(&doc, library)
}

} // verus!
