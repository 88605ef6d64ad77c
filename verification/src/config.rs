use vstd::prelude::*;
use crate::text::{replace_all, spec_replace, spec_trim, trim_str};

verus! {

/// The web page that the browser sync opens when no other is configured.
pub open spec fn default_target_url_spec() -> Seq<char> {
    "https://database.almond-eye.tech/import/"@
}

/// The output directory written into a new configuration file.
pub open spec fn default_output_path_spec() -> Seq<char> {
    "%USERPROFILE%\\Documents\\Kyumaru"@
}

/// The plugin's configuration file (`hachimi/kyumaruConfig.json`): where the JSON
/// dumps go (`outputPath`) and which page the browser sync opens (`targetUrl`).
pub struct Config {
    pub output_path: Option<String>,
    pub target_url: String,
}

/// The default `targetUrl`.
pub fn default_target_url() -> (res: String)
    ensures
        res@ == default_target_url_spec(),
{
    String::from_str("https://database.almond-eye.tech/import/")
}

impl Default for Config {
    fn default() -> (res: Config)
        ensures
            res.output_path matches Some(p) && p@ == default_output_path_spec(),
            res.target_url@ == default_target_url_spec(),
    {
        Config {
            output_path: Some(String::from_str("%USERPROFILE%\\Documents\\Kyumaru")),
            target_url: default_target_url(),
        }
    }
}

/// The settings fixed when the plugin starts: the directory the JSON dumps are
/// saved in, and the configured target URL (each absent until set).
pub struct Settings {
    pub save_root: Option<String>,
    pub target_url: Option<String>,
}

/// The directory the JSON dumps are saved in; it must have been set.
pub fn save_root(settings: &Settings) -> (res: &String)
    requires
        settings.save_root is Some,
    ensures
        settings.save_root == Some(*res),
{
    settings.save_root.as_ref().unwrap()
}

/// The page the browser sync opens: the configured one, else the default.
pub fn target_url(settings: &Settings) -> (res: &str)
    ensures
        res@ == match settings.target_url {
            Some(t) => t@,
            None => default_target_url_spec(),
        },
{
    match &settings.target_url {
        Some(t) => t.as_str(),
        None => "https://database.almond-eye.tech/import/",
    }
}

/// Where the JSON dumps go, before the file system is consulted.
pub enum SaveRootPlan {
    /// The configured path with its home-directory placeholders expanded; a
    /// relative one is taken from the game directory.
    Configured(String),
    /// `Documents/Kyumaru` under this base directory (the user's profile, else the
    /// home directory), or under the game directory when there is none.
    UnderDocuments(Option<String>),
}

/// A configured output path, trimmed, with its placeholders expanded: with a user
/// profile directory `%USERPROFILE%` becomes it; otherwise, with a home directory,
/// `$USER` and then `~` become it; otherwise the path stays as it is.
pub open spec fn expanded_path(p: Seq<char>, userprofile: Option<Seq<char>>, home: Option<Seq<char>>) -> Seq<char> {
    let t = spec_trim(p);
    match userprofile {
        Some(u) => spec_replace(t, "%USERPROFILE%"@, u),
        None => match home {
            Some(h) => spec_replace(spec_replace(t, "$USER"@, h), "~"@, h),
            None => t,
        },
    }
}

pub open spec fn opt_view(o: Option<String>) -> Option<Seq<char>> {
    match o {
        Some(s) => Some(s@),
        None => None,
    }
}

/// Decides where the JSON dumps go from the configured output path and the
/// `USERPROFILE` and `HOME` environment variables: a configured path that is not
/// blank is used, expanded; otherwise `Documents/Kyumaru` under the user's profile
/// or home directory.
pub fn plan_save_root(output_path: &Option<String>, userprofile: &Option<String>, home: &Option<String>) -> (res: SaveRootPlan)
    ensures
        match output_path {
            Some(p) if spec_trim(p@).len() > 0 => res matches SaveRootPlan::Configured(r)
                && r@ == expanded_path(p@, opt_view(*userprofile), opt_view(*home)),
            _ => res matches SaveRootPlan::UnderDocuments(b) && opt_view(b) == match opt_view(*userprofile) {
                Some(u) => Some(u),
                None => opt_view(*home),
            },
        },
{
    if let Some(p) = output_path {
        let t = trim_str(p.as_str());
        if !t.is_empty() {
            proof {
                reveal_strlit("%USERPROFILE%");
                reveal_strlit("$USER");
                reveal_strlit("~");
            }
            let expanded = match userprofile {
                Some(u) => replace_all(t, "%USERPROFILE%", u.as_str()),
                None => match home {
                    Some(h) => {
                        let step = replace_all(t, "$USER", h.as_str());
                        replace_all(step.as_str(), "~", h.as_str())
                    },
                    None => String::from_str(t),
                },
            };
            return SaveRootPlan::Configured(expanded);
        }
    }
    let base = match userprofile {
        Some(u) => Some(u.clone()),
        None => match home {
            Some(h) => Some(h.clone()),
            None => None,
        },
    };
    SaveRootPlan::UnderDocuments(base)
}

} // verus!
