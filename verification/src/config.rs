//! The configuration of the browser: the root directories it exposes, the
//! port it listens on and the directories of its static files.

use vstd::prelude::*;
use vstd::string::*;

verus! {

/// The port used when the configuration names none.
pub const DEFAULT_PORT: u16 = 8080;

/// The whole configuration. It is read once and never changed.
#[derive(Clone, Debug)]
pub struct Config {
    /// The root directories, addressed in requests by their index.
    pub root_dirs: Vec<RootDirConfig>,
    /// The port to listen on.
    pub port: u16,
    /// The directories of static files.
    pub static_dirs: Vec<StaticDirConfig>,
}

/// A root directory: a display name and a path in the file system.
#[derive(Clone, Debug)]
pub struct RootDirConfig {
    pub name: String,
    pub path: String,
}

/// A directory of static files: a name and a path in the file system.
#[derive(Clone, Debug)]
pub struct StaticDirConfig {
    pub name: String,
    pub path: String,
}

/// The root directories used when the configuration names none: the
/// current directory alone.
pub fn default_root_dirs() -> (r: Vec<RootDirConfig>)
    ensures
        r@.len() == 1,
        r@[0].name@ == "默认目录"@,
        r@[0].path@ == "."@,
{
    let mut dirs: Vec<RootDirConfig> = Vec::new();
    dirs.push(RootDirConfig { name: String::from_str("默认目录"), path: String::from_str(".") });
    dirs
}

/// The port used when the configuration names none.
pub fn default_port() -> (r: u16)
    ensures
        r == DEFAULT_PORT,
{
    DEFAULT_PORT
}

/// The static directories used when the configuration names none.
pub fn default_static_dirs() -> (r: Vec<StaticDirConfig>)
    ensures
        r@.len() == 1,
        r@[0].name@ == "default"@,
        r@[0].path@ == "./static"@,
{
    let mut dirs: Vec<StaticDirConfig> = Vec::new();
    dirs.push(
        StaticDirConfig { name: String::from_str("default"), path: String::from_str("./static") },
    );
    dirs
}

impl Config {
    /// A configuration from the options that a configuration document
    /// holds; each one that is missing takes its default.
    pub fn from_options(
        root_dirs: Option<Vec<RootDirConfig>>,
        port: Option<u16>,
        static_dirs: Option<Vec<StaticDirConfig>>,
    ) -> (r: Config)
        ensures
            root_dirs matches Some(dirs) ==> r.root_dirs == dirs,
            root_dirs is None ==> r.root_dirs@.len() == 1 && r.root_dirs@[0].name@ == "默认目录"@
                && r.root_dirs@[0].path@ == "."@,
            r.port == match port {
                Some(p) => p,
                None => DEFAULT_PORT,
            },
            static_dirs matches Some(dirs) ==> r.static_dirs == dirs,
            static_dirs is None ==> r.static_dirs@.len() == 1 && r.static_dirs@[0].name@
                == "default"@ && r.static_dirs@[0].path@ == "./static"@,
    {
        Config {
            root_dirs: match root_dirs {
                Some(dirs) => dirs,
                None => default_root_dirs(),
            },
            port: match port {
                Some(p) => p,
                None => default_port(),
            },
            static_dirs: match static_dirs {
                Some(dirs) => dirs,
                None => default_static_dirs(),
            },
        }
    }

    /// The root directory that a request's root index selects, or nothing
    /// when the configuration has no root of that index.
    pub fn root_dir(&self, root_index: usize) -> (r: Option<&RootDirConfig>)
        ensures
            root_index < self.root_dirs@.len() ==> r == Some(&self.root_dirs@[root_index as int]),
            root_index >= self.root_dirs@.len() ==> r is None,
    {
        if root_index < self.root_dirs.len() {
            Some(&self.root_dirs[root_index])
        } else {
            None
        }
    }
}

impl Default for Config {
    /// The configuration used when none can be loaded.
    fn default() -> (r: Config)
        ensures
            r.root_dirs@.len() == 1,
            r.root_dirs@[0].name@ == "默认目录"@,
            r.root_dirs@[0].path@ == "."@,
            r.port == DEFAULT_PORT,
            r.static_dirs@.len() == 1,
            r.static_dirs@[0].name@ == "default"@,
            r.static_dirs@[0].path@ == "./static"@,
    {
        Config {
            root_dirs: default_root_dirs(),
            port: default_port(),
            static_dirs: default_static_dirs(),
        }
    }
}

} // verus!
