//! Windows: the proxy settings held as three values under the current user's
//! `Internet Settings` registry key.
//!
//! The functions here say which values to write and build the configuration
//! from the values read; the registry access itself is left to the caller.
use crate::text::{decimal, decimal_string};
use crate::Sysproxy;
use vstd::prelude::*;

verus! {

/// One value to store under the key.
pub enum RegValue {
    Dword(u32),
    Text(String),
}

/// A named value to write under the key.
pub struct RegWrite {
    pub name: String,
    pub value: RegValue,
}

/// The path of the key, under the current user's hive.
pub fn sub_key() -> (r: &'static str)
    ensures
        r@ == "SOFTWARE\\Microsoft\\Windows\\CurrentVersion\\Internet Settings"@,
{
    "SOFTWARE\\Microsoft\\Windows\\CurrentVersion\\Internet Settings"
}

/// The stored `ProxyEnable` value for an enable flag.
pub open spec fn enable_dword(enable: bool) -> u32 {
    if enable {
        1
    } else {
        0
    }
}

/// The stored `ProxyServer` value for a host and port: `host:port`.
pub open spec fn server_text(host: Seq<char>, port: u16) -> Seq<char> {
    host + ":"@ + decimal(port as nat)
}

pub open spec fn is_dword(w: RegWrite, name: Seq<char>, n: u32) -> bool {
    w.name@ == name && w.value == RegValue::Dword(n)
}

pub open spec fn is_text(w: RegWrite, name: Seq<char>, t: Seq<char>) -> bool {
    w.name@ == name && (w.value matches RegValue::Text(s) && s@ == t)
}

/// The `ProxyEnable` value that `set_system_proxy` stores for a configuration
/// is read by `get_system_proxy` as that configuration's enable flag.
pub proof fn lemma_enable_round_trip(p: Sysproxy)
    ensures
        (enable_dword(p.enable) == 1) == p.enable,
{
}

/// The configuration from the stored values: `ProxyEnable`, the host and port
/// that `ProxyServer` holds, and `ProxyOverride` where it is present. The port
/// is the one port of all protocols, kept in the SOCKS field.
pub fn get_system_proxy(proxy_enable: u32, host: String, port: u16, bypass: Option<String>) -> (r: Sysproxy)
    ensures
        r.enable == (proxy_enable == 1),
        r.host@ == host@,
        r.socks_port == Some(port),
        r.http_port is None,
        r.https_port is None,
        r.bypass == bypass,
{
    Sysproxy {
        enable: proxy_enable == 1,
        host,
        http_port: None,
        https_port: None,
        socks_port: Some(port),
        bypass,
    }
}

/// The values that apply `proxy`, in order: `ProxyEnable`; `ProxyServer` where
/// the SOCKS port is set; `ProxyOverride` where the bypass list is set.
pub fn set_system_proxy(proxy: &Sysproxy) -> (r: Vec<RegWrite>)
    ensures
        r@.len() == 1 + (if proxy.socks_port is Some { 1int } else { 0 }) + (if proxy.bypass is Some { 1int } else { 0 }),
        is_dword(r@[0], "ProxyEnable"@, enable_dword(proxy.enable)),
        proxy.socks_port matches Some(n) ==> is_text(r@[1], "ProxyServer"@, server_text(proxy.host@, n)),
        proxy.bypass matches Some(b) ==> is_text(r@[r@.len() - 1], "ProxyOverride"@, b@),
{
    let mut r: Vec<RegWrite> = Vec::new();
    let enable: u32 = if proxy.enable {
        1
    } else {
        0
    };
    r.push(RegWrite { name: String::from_str("ProxyEnable"), value: RegValue::Dword(enable) });
    match proxy.socks_port {
        Some(port) => {
            let mut server = proxy.host.clone();
            server.append(":");
            let port_text = decimal_string(port);
            server.append(port_text.as_str());
            r.push(RegWrite { name: String::from_str("ProxyServer"), value: RegValue::Text(server) });
        },
        None => {},
    }
    match &proxy.bypass {
        Some(b) => {
            r.push(RegWrite { name: String::from_str("ProxyOverride"), value: RegValue::Text(b.clone()) });
        },
        None => {},
    }
    r
}

} // verus!
