use vstd::prelude::*;

verus! {

/// An installed game, as read from its `appmanifest_<appid>.acf`.
#[derive(Debug)]
pub struct GameEntry {
    pub appid: String,
    pub name: Option<String>,
    /// Install directory: `<library>/common/<installdir>`.
    pub path: String,
    pub build_id: Option<String>,
}

/// Whether a downloaded workshop item matches the version on the Workshop.
#[derive(Debug, Clone, Copy, PartialEq, Eq, Structural)]
pub enum ItemStatus {
    Unknown,
    UpToDate,
    OutOfDate,
}

/// One downloaded workshop item of a game.
#[derive(Debug)]
pub struct WorkshopItem {
    pub item_id: String,
    pub name: Option<String>,
    /// The item's folder: `<steamapps>/workshop/content/<appid>/<item_id>`.
    pub path: String,
    pub local_timestamp: Option<u64>,
    pub remote_timestamp: Option<u64>,
    pub disk_size: u64,
    pub status: ItemStatus,
    pub incompatible: bool,
    pub supported_versions: Vec<String>,
    pub preview_url: Option<String>,
    pub selected: bool,
}

/// What the Workshop reports about one published file.
#[derive(Debug)]
pub struct WorkshopMetadata {
    pub title: Option<String>,
    pub time_updated: Option<u64>,
    pub incompatible: bool,
    pub tags: Vec<String>,
    pub preview_url: Option<String>,
}

/// The two Steam Community cookies a logged-in session needs.
#[derive(Debug)]
pub struct SteamCookies {
    pub session_id: String,
    pub login_secure: String,
}

/// A copy of an optional string.
pub fn copy_opt_string(s: &Option<String>) -> (res: Option<String>)
    ensures
        res == *s,
{
    match s {
        Some(v) => Some(v.clone()),
        None => None,
    }
}

/// A copy of a list of strings.
pub fn copy_strings(v: &Vec<String>) -> (res: Vec<String>)
    ensures
        res@ == v@,
{
    let mut res: Vec<String> = Vec::new();
    let mut i: usize = 0;
    while i < v.len()
        invariant
            i <= v.len(),
            res@ == v@.take(i as int),
        decreases v.len() - i,
    {
        res.push(v[i].clone());
        i = i + 1;
        assert(res@ =~= v@.take(i as int));
    }
    assert(v@.take(v.len() as int) =~= v@);
    res
}

impl GameEntry {
    /// A field-for-field copy.
    pub fn duplicate(&self) -> (res: GameEntry)
        ensures
            res == *self,
    {
        GameEntry {
            appid: self.appid.clone(),
            name: copy_opt_string(&self.name),
            path: self.path.clone(),
            build_id: copy_opt_string(&self.build_id),
        }
    }
}

impl WorkshopItem {
    /// A field-for-field copy.
    pub fn duplicate(&self) -> (res: WorkshopItem)
        ensures
            res.item_id == self.item_id,
            res.name == self.name,
            res.path == self.path,
            res.local_timestamp == self.local_timestamp,
            res.remote_timestamp == self.remote_timestamp,
            res.disk_size == self.disk_size,
            res.status == self.status,
            res.incompatible == self.incompatible,
            res.supported_versions@ == self.supported_versions@,
            res.preview_url == self.preview_url,
            res.selected == self.selected,
    {
        WorkshopItem {
            item_id: self.item_id.clone(),
            name: copy_opt_string(&self.name),
            path: self.path.clone(),
            local_timestamp: self.local_timestamp,
            remote_timestamp: self.remote_timestamp,
            disk_size: self.disk_size,
            status: self.status,
            incompatible: self.incompatible,
            supported_versions: copy_strings(&self.supported_versions),
            preview_url: copy_opt_string(&self.preview_url),
            selected: self.selected,
        }
    }
}

} // verus!
