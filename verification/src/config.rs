//! Per-user configuration: where task data lives and how it is shown.
//! Reading and writing the configuration file is the caller's business;
//! this module holds the configuration values and the paths derived from
//! the environment's directories.

use vstd::prelude::*;
use vstd::string::StringExecFns;

verus! {

/// The configuration record: the data directory, the storage format,
/// the default priority and whether completed tasks are listed.
#[derive(Debug, Clone, PartialEq)]
pub struct Config {
    pub data_dir: Option<String>,
    pub data_format: Option<String>,
    pub default_priority: Option<String>,
    pub show_completed: Option<bool>,
}

/// Relies on `dirs::home_dir`: the user's home directory as the
/// environment reports it. The result depends on the environment, so
/// nothing is promised of it.
#[verifier::external_body]
fn home_dir_string() -> (r: Option<String>)
{
    dirs::home_dir().map(|p| p.to_string_lossy().into_owned())
}

/// The configuration assumed when none is stored, for a given home
/// directory: data under `.taskclaw` in that directory, JSON storage,
/// medium priority, completed tasks shown.
pub fn default_with_home(home: Option<String>) -> (r: Config)
    ensures
        match home {
            Some(h) => r.data_dir matches Some(d) && d@ == h@ + "/.taskclaw"@,
            None => r.data_dir is None,
        },
        r.data_format matches Some(f) && f@ == "json"@,
        r.default_priority matches Some(p) && p@ == "medium"@,
        r.show_completed == Some(true),
{
    let data_dir = match home {
        Some(h) => {
            let mut d = h;
            d.append("/.taskclaw");
            Some(d)
        },
        None => None,
    };
    Config {
        data_dir,
        data_format: Some(String::from_str("json")),
        default_priority: Some(String::from_str("medium")),
        show_completed: Some(true),
    }
}

impl Default for Config {
    /// The stored-nothing configuration, with the data directory taken
    /// from the environment's home directory.
    fn default() -> (r: Config)
        ensures
            r.data_format matches Some(f) && f@ == "json"@,
            r.default_priority matches Some(p) && p@ == "medium"@,
            r.show_completed == Some(true),
    {
        default_with_home(home_dir_string())
    }
}

/// Where the configuration file lives, given the environment's
/// configuration directory and home directory: under `claw` in the
/// configuration directory, falling back to `.config` under home, then
/// to the current directory.
pub fn config_file_path(config_dir: Option<String>, home: Option<String>) -> (r: String)
    ensures
        match config_dir {
            Some(c) => r@ == c@ + "/claw/config.toml"@,
            None => match home {
                Some(h) => r@ == h@ + "/.config/claw/config.toml"@,
                None => r@ == "./.config/claw/config.toml"@,
            },
        },
{
    match config_dir {
        Some(c) => {
            let mut p = c;
            p.append("/claw/config.toml");
            p
        },
        None => match home {
            Some(h) => {
                let mut p = h;
                p.append("/.config/claw/config.toml");
                p
            },
            None => String::from_str("./.config/claw/config.toml"),
        },
    }
}

/// The fallback data directory for the one-file-per-task layout, given
/// the home directory: `.taskclaw` there, or in the current directory
/// when no home is known.
pub fn data_dir_fallback(home: Option<String>) -> (r: String)
    ensures
        match home {
            Some(h) => r@ == h@ + "/.taskclaw"@,
            None => r@ == "./.taskclaw"@,
        },
{
    match home {
        Some(h) => {
            let mut p = h;
            p.append("/.taskclaw");
            p
        },
        None => String::from_str("./.taskclaw"),
    }
}

/// Where the aggregate data file lives, given the home directory: the
/// hidden file `.taskclaw.json` there, or in the current directory when
/// no home is known.
pub fn data_file_path(home: Option<String>) -> (r: String)
    ensures
        match home {
            Some(h) => r@ == h@ + "/.taskclaw.json"@,
            None => r@ == "./.taskclaw.json"@,
        },
{
    match home {
        Some(h) => {
            let mut p = h;
            p.append("/.taskclaw.json");
            p
        },
        None => String::from_str("./.taskclaw.json"),
    }
}

/// The aggregate data file's path for this environment: `.taskclaw.json`
/// under some base directory.
pub fn get_data_file() -> (r: String)
    ensures
        exists|base: Seq<char>| r@ == base + "/.taskclaw.json"@,
{
    let r = data_file_path(home_dir_string());
    proof {
        if r@ != "./.taskclaw.json"@ {
        } else {
            reveal_strlit("./.taskclaw.json");
            reveal_strlit(".");
            reveal_strlit("/.taskclaw.json");
            assert(r@ == "."@ + "/.taskclaw.json"@);
        }
    }
    r
}

} // verus!
