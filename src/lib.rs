//! Reading and writing the system-wide HTTP, HTTPS and SOCKS proxy settings of
//! Linux desktops, macOS network services and the Windows registry, through one
//! configuration value.
//!
//! The adapters hold the logic: which native calls to make, in which order and
//! with which arguments, and how to read the text those calls print. Running
//! the calls is left to the caller.
use vstd::prelude::*;

pub mod linux;
pub mod macos;
pub mod text;
pub mod windows;

verus! {

/// One system-wide proxy configuration.
#[derive(Debug, Default, Clone, PartialEq, Eq)]
pub struct Sysproxy {
    pub enable: bool,
    pub host: String,
    pub http_port: Option<u16>,
    pub https_port: Option<u16>,
    pub socks_port: Option<u16>,
    pub bypass: Option<String>,
}

#[derive(Debug, Clone, PartialEq, Eq)]
pub enum Error {
    /// Native output or a stored value could not be read into the expected shape.
    ParseStr,
    /// A native call or a registry access failed; the text describes it.
    Io(String),
    /// The network service in use could not be found.
    NetworkInterface,
}

pub type Result<T> = core::result::Result<T, Error>;

/// `p` holds exactly these fields, with no bypass list.
pub open spec fn is_record(
    p: Sysproxy,
    enable: bool,
    host: Seq<char>,
    http: Option<u16>,
    https: Option<u16>,
    socks: Option<u16>,
) -> bool {
    &&& p.enable == enable
    &&& p.host@ == host
    &&& p.http_port == http
    &&& p.https_port == https
    &&& p.socks_port == socks
    &&& p.bypass is None
}

impl Sysproxy {
    /// Whether this library has an adapter for the platform it runs on.
    pub fn is_support() -> (r: bool)
        ensures
            r,
    {
        true
    }
}

} // verus!
