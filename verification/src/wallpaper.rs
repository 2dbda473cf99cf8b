//! Where wallpapers and the configuration live, and what is known of a
//! wallpaper.

use vstd::prelude::*;
use crate::text::push_str;

verus! {

/// The configuration directory, under the home directory.
pub const CONFIG_DIR: &'static str = ".config/wallpaper-engine";

/// The configuration file, in the configuration directory.
pub const CONFIG_FILE: &'static str = "wallpaper.conf";

/// The wallpaper directory, in the configuration directory.
pub const WALLPAPER_DIR: &'static str = "wallpapers";

/// The wallpaper directory under `home`, or the directory of the wallpaper
/// `wp_dir` in it.
pub fn get_wallpaper_dir(home: &str, wp_dir: Option<String>) -> (res: String)
    ensures
        wp_dir is None ==> res@ == home@ + "/"@ + CONFIG_DIR@ + "/"@ + WALLPAPER_DIR@,
        wp_dir matches Some(w) ==> res@ == home@ + "/"@ + CONFIG_DIR@ + "/"@ + WALLPAPER_DIR@
            + "/"@ + w@,
{
    let mut s = String::new();
    push_str(&mut s, home);
    push_str(&mut s, "/");
    push_str(&mut s, CONFIG_DIR);
    push_str(&mut s, "/");
    push_str(&mut s, WALLPAPER_DIR);
    match wp_dir {
        Some(w) => {
            push_str(&mut s, "/");
            push_str(&mut s, w.as_str());
        },
        None => {},
    }
    s
}

/// The configuration directory under `home`.
pub fn config_dir_path(home: &str) -> (res: String)
    ensures
        res@ == home@ + "/"@ + CONFIG_DIR@,
{
    let mut s = String::new();
    push_str(&mut s, home);
    push_str(&mut s, "/");
    push_str(&mut s, CONFIG_DIR);
    s
}

/// The configuration file under `home`.
pub fn config_file_path(home: &str) -> (res: String)
    ensures
        res@ == home@ + "/"@ + CONFIG_DIR@ + "/"@ + CONFIG_FILE@,
{
    let mut s = config_dir_path(home);
    push_str(&mut s, "/");
    push_str(&mut s, CONFIG_FILE);
    s
}

/// The file the daemon opens as the image of the wallpaper `wallpaper_id`:
/// the wallpaper's directory followed by `/`.
pub fn wallpaper_image_path(home: &str, wallpaper_id: &str) -> (res: String)
    ensures
        res@ == home@ + "/"@ + CONFIG_DIR@ + "/"@ + WALLPAPER_DIR@ + "/"@ + wallpaper_id@ + "/"@,
{
    let mut id = String::new();
    push_str(&mut id, wallpaper_id);
    let mut s = get_wallpaper_dir(home, Some(id));
    push_str(&mut s, "/");
    s
}

/// The project file of the wallpaper stored at `path`: `<path>/project.json`.
pub fn project_file_path(path: &str) -> (res: String)
    ensures
        res@ == path@ + "/"@ + "project.json"@,
{
    let mut s = String::new();
    push_str(&mut s, path);
    push_str(&mut s, "/");
    push_str(&mut s, "project.json");
    s
}

/// The description a wallpaper gives of itself in its `project.json`.
pub struct ProjectInfo {
    pub content_rating: String,
    pub file: String,
    pub preview: String,
    pub tags: Vec<String>,
    pub title: String,
    pub background_type: String,
    pub version: u8,
}

/// A wallpaper found in the wallpaper directory.
pub struct WallpaperInfo {
    /// Id of the wallpaper: the name of its directory.
    pub id: String,
    /// Full path of the wallpaper's directory.
    pub full_path: String,
    /// Full path of its project file.
    pub project_file: String,
    pub data: ProjectInfo,
}

impl WallpaperInfo {
    /// The wallpaper whose directory `full_path` is named `id`, described by
    /// `data` (read from its project file).
    pub fn new(id: String, full_path: String, data: ProjectInfo) -> (res: WallpaperInfo)
        ensures
            res.id == id,
            res.full_path == full_path,
            res.project_file@ == full_path@ + "/"@ + "project.json"@,
            res.data == data,
    {
        let project_file = project_file_path(full_path.as_str());
        WallpaperInfo { id, full_path, project_file, data }
    }

    /// The location of the wallpaper's preview image: `file://<path>/<preview>`.
    pub fn preview_uri(&self) -> (res: String)
        ensures
            res@ == "file://"@ + self.full_path@ + "/"@ + self.data.preview@,
    {
        let mut s = String::new();
        push_str(&mut s, "file://");
        push_str(&mut s, self.full_path.as_str());
        push_str(&mut s, "/");
        push_str(&mut s, self.data.preview.as_str());
        s
    }
}

} // verus!
