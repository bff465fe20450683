//! Server configuration and its defaults.

use vstd::prelude::*;

verus! {

/// The settings of the server, read from the environment.
pub struct Config {
    pub google_maps_api_key: String,
    pub osm_data_dir: String,
    pub web_dir: String,
    pub bind_addr: String,
}

/// Where the road point files are, unless configured.
pub fn default_osm_data_dir() -> (s: String)
    ensures
        s@ == "osm"@,
{
    "osm".to_owned()
}

/// Where the web client's files are, unless configured.
pub fn default_web_dir() -> (s: String)
    ensures
        s@ == "../web/out"@,
{
    "../web/out".to_owned()
}

/// The address the server listens on, unless configured.
pub fn default_bind_addr() -> (s: String)
    ensures
        s@ == "0.0.0.0:3000"@,
{
    "0.0.0.0:3000".to_owned()
}

} // verus!
