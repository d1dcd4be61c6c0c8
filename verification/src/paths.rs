//! The filesystem layout, as strings: where the configuration directory,
//! the registry of installable models, the daemon's pid marker and the
//! memory working directory sit. The caller owns the actual filesystem;
//! these functions only build the paths.

use vstd::prelude::*;

verus! {

/// The per-user configuration (and data) directory under a home
/// directory.
pub fn config_dir_path(home: &str) -> (r: String)
    ensures
        r@ == home@ + "/.tiles"@,
{
    let mut s = home.to_owned();
    s.append("/.tiles");
    s
}

/// The registry of installable models under the data directory.
pub fn registry_dir_path(data_dir: &str) -> (r: String)
    ensures
        r@ == data_dir@ + "/registry"@,
{
    let mut s = data_dir.to_owned();
    s.append("/registry");
    s
}

/// Where a named model's Modelfile sits inside the registry directory.
pub fn registry_modelfile_path(registry_dir: &str, name: &str) -> (r: String)
    ensures
        r@ == registry_dir@ + "/"@ + name@ + "/Modelfile"@,
{
    let mut s = registry_dir.to_owned();
    s.append("/");
    s.append(name);
    s.append("/Modelfile");
    s
}

/// The daemon's pid marker under the configuration directory.
pub fn server_pid_path(config_dir: &str) -> (r: String)
    ensures
        r@ == config_dir@ + "/server.pid"@,
{
    let mut s = config_dir.to_owned();
    s.append("/server.pid");
    s
}

/// The default memory working directory under the data directory.
pub fn memory_dir_path(data_dir: &str) -> (r: String)
    ensures
        r@ == data_dir@ + "/memory"@,
{
    let mut s = data_dir.to_owned();
    s.append("/memory");
    s
}

/// The marker file caching the memory working directory's location.
pub fn memory_path_marker(config_dir: &str) -> (r: String)
    ensures
        r@ == config_dir@ + "/.memory_path"@,
{
    let mut s = config_dir.to_owned();
    s.append("/.memory_path");
    s
}

} // verus!
