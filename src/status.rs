use vstd::prelude::*;

use crate::text::join;

verus! {

/// What the status stream tells browsers.
pub struct SysStatus {
    pub version: String,
    pub admin_exists: bool,
    pub aria2_alive: bool,
}

impl SysStatus {
    /// The status with the daemon's connectivity set to `alive`.
    pub fn with_alive(self, alive: bool) -> (r: SysStatus)
        ensures
            r.version == self.version,
            r.admin_exists == self.admin_exists,
            r.aria2_alive == alive,
    {
        SysStatus { aria2_alive: alive, ..self }
    }
}

/// The command line of the server.
pub struct Args {
    pub port: u16,
    pub host: String,
    pub aria2_host: String,
    pub aria2_port: String,
    pub aria2_secret: Option<String>,
    pub data_dir: String,
    pub verbose: bool,
    pub ssl: Option<String>,
    pub jwt_secret: Option<String>,
}

impl Args {
    /// The daemon's endpoint: `<host>:<port>/jsonrpc`.
    pub fn aria2_url(&self) -> (r: String)
        ensures
            r@ == self.aria2_host@ + ":"@ + self.aria2_port@ + "/jsonrpc"@,
    {
        let a = join(self.aria2_host.as_str(), ":");
        let b = join(a.as_str(), self.aria2_port.as_str());
        join(b.as_str(), "/jsonrpc")
    }
}

} // verus!
