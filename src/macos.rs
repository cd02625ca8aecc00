//! macOS: proxy settings scoped to one network service (such as `Wi-Fi`), read
//! and written with `networksetup`, and the lookup of the service in use.
//!
//! The functions here build the argument lists of those calls and read the text
//! the calls print; each `Vec<String>` in a result is one call, in order.
use crate::text::{
    args_of, decimal, decimal_string, find, find_str, join, join_strs, parse_u16,
    parse_u16_str, same_text, split, split_str, starts_with, starts_with_str, trim, trim_str,
};
use crate::{is_record, Error, Result, Sysproxy};
use vstd::prelude::*;

verus! {

/// The protocols whose proxy a network service holds.
#[derive(Debug, Clone, Copy)]
pub enum ProxyType {
    HTTP,
    HTTPS,
    SOCKS,
}

/// The name of a protocol's settings in `networksetup`'s subcommands.
pub open spec fn target_of(t: ProxyType) -> Seq<char> {
    match t {
        ProxyType::HTTP => "webproxy"@,
        ProxyType::HTTPS => "securewebproxy"@,
        ProxyType::SOCKS => "socksfirewallproxy"@,
    }
}

impl ProxyType {
    fn to_target(&self) -> (r: &'static str)
        ensures
            r@ == target_of(*self),
    {
        match self {
            ProxyType::HTTP => "webproxy",
            ProxyType::HTTPS => "securewebproxy",
            ProxyType::SOCKS => "socksfirewallproxy",
        }
    }
}

/// `v` up to its first line break.
pub open spec fn first_line(v: Seq<char>) -> Seq<char> {
    match find(v, "\n"@) {
        Some(e) => if 0 <= e <= v.len() {
            v.subrange(0, e)
        } else {
            v
        },
        None => v,
    }
}

/// The trimmed rest of the line after the first occurrence of `key`; empty
/// where `key` does not occur.
pub open spec fn line_value(out: Seq<char>, key: Seq<char>) -> Seq<char> {
    match find(out, key) {
        Some(i) => if 0 <= i && i + key.len() <= out.len() {
            trim(first_line(out.subrange(i + key.len(), out.len() as int)))
        } else {
            Seq::empty()
        },
        None => Seq::empty(),
    }
}

/// A stored port: 0 stands for no port.
pub open spec fn port_field(n: u16) -> Option<u16> {
    if n == 0 {
        None
    } else {
        Some(n)
    }
}

/// `p` is the record that the printed settings `out` of protocol `t` give.
pub open spec fn is_proxy_of(p: Sysproxy, t: ProxyType, out: Seq<char>, port: u16) -> bool {
    let enable = line_value(out, "Enabled:"@) == "Yes"@;
    let host = line_value(out, "Server:"@);
    match t {
        ProxyType::HTTP => is_record(p, enable, host, port_field(port), None, None),
        ProxyType::HTTPS => is_record(p, enable, host, None, port_field(port), None),
        ProxyType::SOCKS => is_record(p, enable, host, None, None, port_field(port)),
    }
}

/// What reading the printed settings `out` of protocol `t` yields: an error
/// exactly where the port line holds no port number.
pub open spec fn proxy_result(r: Result<Sysproxy>, t: ProxyType, out: Seq<char>) -> bool {
    match parse_u16(line_value(out, "Port:"@)) {
        Some(n) => r matches Ok(p) && is_proxy_of(p, t, out, n),
        None => r == Err::<Sysproxy, Error>(Error::ParseStr),
    }
}

/// The non-empty lines of `lines`, in order.
pub open spec fn non_empty(lines: Seq<Seq<char>>) -> Seq<Seq<char>>
    decreases lines.len(),
{
    if lines.len() == 0 {
        seq![]
    } else if lines.last().len() > 0 {
        non_empty(lines.drop_last()).push(lines.last())
    } else {
        non_empty(lines.drop_last())
    }
}

/// The comma-joined bypass list that the printed domains, one per line, give.
pub open spec fn bypass_of_lines(out: Seq<char>) -> Seq<char> {
    join(non_empty(split(out, "\n"@)), ","@)
}

/// The calls that write one protocol's server and then its state.
pub open spec fn proxy_calls(
    t: ProxyType,
    service: Seq<char>,
    host: Seq<char>,
    port: u16,
    enabled: bool,
) -> Seq<Seq<Seq<char>>> {
    seq![
        seq!["-set"@ + target_of(t), service, host, decimal(port as nat)],
        seq!["-set"@ + target_of(t) + "state"@, service, if enabled { "on"@ } else { "off"@ }],
    ]
}

/// The calls for one protocol of `p`: none where its port is not set.
pub open spec fn port_calls(t: ProxyType, p: Sysproxy, service: Seq<char>, port: Option<u16>) -> Seq<Seq<Seq<char>>> {
    match port {
        Some(n) => proxy_calls(t, service, p.host@, n, p.enable),
        None => seq![],
    }
}

/// The call that writes the bypass domains, one argument each.
pub open spec fn bypass_calls(p: Sysproxy, service: Seq<char>) -> Seq<Seq<Seq<char>>> {
    match p.bypass {
        Some(b) => seq![seq!["-setproxybypassdomains"@, service] + split(b@, ","@)],
        None => seq![],
    }
}

/// All calls that apply `p` to `service`: SOCKS, HTTPS, HTTP, then the bypass list.
pub open spec fn system_calls(p: Sysproxy, service: Seq<char>) -> Seq<Seq<Seq<char>>> {
    port_calls(ProxyType::SOCKS, p, service, p.socks_port) + port_calls(ProxyType::HTTPS, p, service, p.https_port)
        + port_calls(ProxyType::HTTP, p, service, p.http_port) + bypass_calls(p, service)
}

/// The rest of `line` after its first `k` characters.
pub open spec fn after(line: Seq<char>, k: int) -> Seq<char> {
    if k <= line.len() {
        line.subrange(k, line.len() as int)
    } else {
        Seq::empty()
    }
}

/// The value of the last line that begins with `label`, read from `skip`
/// characters on.
pub open spec fn last_labeled(lines: Seq<Seq<char>>, label: Seq<char>, skip: int) -> Option<Seq<char>>
    decreases lines.len(),
{
    if lines.len() == 0 {
        None
    } else if starts_with(lines.last(), label) {
        Some(after(lines.last(), skip))
    } else {
        last_labeled(lines.drop_last(), label, skip)
    }
}

/// The hardware port that one block of the port listing names, where its
/// device is `device`.
pub open spec fn block_port(block: Seq<char>, device: Seq<char>) -> Option<Seq<char>> {
    let lines = split(block, "\n"@);
    match last_labeled(lines, "Device:"@, 8) {
        Some(d) => if d == device {
            last_labeled(lines, "Hardware Port:"@, 15)
        } else {
            None
        },
        None => None,
    }
}

/// The hardware port named by the first block that matches `device`.
pub open spec fn first_port(blocks: Seq<Seq<char>>, device: Seq<char>) -> Option<Seq<char>>
    decreases blocks.len(),
{
    if blocks.len() == 0 {
        None
    } else {
        match block_port(blocks[0], device) {
            Some(h) => Some(h),
            None => first_port(blocks.drop_first(), device),
        }
    }
}

/// The service name that the port listing gives for `device`.
pub open spec fn service_of_device(listing: Seq<char>, device: Seq<char>) -> Option<Seq<char>> {
    first_port(split(listing, "Ethernet Address:"@), device)
}

/// One network interface: its system name and the text of its addresses.
pub struct NetInterface {
    pub name: String,
    pub addresses: Vec<String>,
}

pub open spec fn has_address(i: NetInterface, addr: Seq<char>) -> bool {
    exists|k: int| 0 <= k < i.addresses@.len() && (#[trigger] i.addresses@[k])@ == addr
}

/// The position of the first interface, at `from` or after, that holds `addr`.
pub open spec fn interface_from(ifaces: Seq<NetInterface>, addr: Seq<char>, from: int) -> Option<int>
    decreases ifaces.len() - from,
{
    if from < 0 || from >= ifaces.len() {
        None
    } else if has_address(ifaces[from], addr) {
        Some(from)
    } else {
        interface_from(ifaces, addr, from + 1)
    }
}

/// One protocol's settings, from the text that `-get<target>` prints.
pub fn get_proxy(proxy_type: ProxyType, output: &str) -> (r: Result<Sysproxy>)
    ensures
        proxy_result(r, proxy_type, output@),
{
    let enable = same_text(parse(output, "Enabled:"), "Yes");
    let host = String::from_str(parse(output, "Server:"));
    let port = match parse_u16_str(parse(output, "Port:")) {
        Some(n) => n,
        None => return Err(Error::ParseStr),
    };
    let port = if port == 0 {
        None
    } else {
        Some(port)
    };
    Ok(
        match proxy_type {
            ProxyType::HTTP => Sysproxy {
                enable,
                host,
                http_port: port,
                https_port: None,
                socks_port: None,
                bypass: None,
            },
            ProxyType::HTTPS => Sysproxy {
                enable,
                host,
                http_port: None,
                https_port: port,
                socks_port: None,
                bypass: None,
            },
            ProxyType::SOCKS => Sysproxy {
                enable,
                host,
                http_port: None,
                https_port: None,
                socks_port: port,
                bypass: None,
            },
        },
    )
}

/// The trimmed rest of the line after the first `key`; empty where there is none.
fn parse<'a>(target: &'a str, key: &str) -> (r: &'a str)
    ensures
        r@ == line_value(target@, key@),
{
    match find_str(target, key) {
        Some(i) => {
            let n = target.unicode_len();
            let value = target.substring_char(i + key.unicode_len(), n);
            let line = match find_str(value, "\n") {
                Some(e) => value.substring_char(0, e),
                None => value,
            };
            trim_str(line)
        },
        None => {
            proof {
                reveal_strlit("");
            }
            ""
        },
    }
}

/// HTTP settings of a service, from the text that `-getwebproxy` prints.
pub fn get_http(output: &str) -> (r: Result<Sysproxy>)
    ensures
        proxy_result(r, ProxyType::HTTP, output@),
{
    get_proxy(ProxyType::HTTP, output)
}

/// HTTPS settings of a service, from the text that `-getsecurewebproxy` prints.
pub fn get_https(output: &str) -> (r: Result<Sysproxy>)
    ensures
        proxy_result(r, ProxyType::HTTPS, output@),
{
    get_proxy(ProxyType::HTTPS, output)
}

/// SOCKS settings of a service, from the text that `-getsocksfirewallproxy` prints.
pub fn get_socks(output: &str) -> (r: Result<Sysproxy>)
    ensures
        proxy_result(r, ProxyType::SOCKS, output@),
{
    get_proxy(ProxyType::SOCKS, output)
}

/// The comma-joined bypass list, from the domains that
/// `-getproxybypassdomains` prints one per line.
pub fn get_bypass(output: &str) -> (r: String)
    ensures
        r@ == bypass_of_lines(output@),
{
    let lines = split_str(output, "\n");
    let mut kept: Vec<String> = Vec::new();
    let mut i: usize = 0;
    while i < lines.len()
        invariant
            i <= lines@.len(),
            kept.deep_view() == non_empty(lines.deep_view().subrange(0, i as int)),
        decreases lines@.len() - i,
    {
        let ghost before = kept.deep_view();
        let line = lines[i].as_str();
        if line.unicode_len() > 0 {
            kept.push(String::from_str(line));
            assert(kept.deep_view() =~= before.push(lines[i as int]@));
        }
        i += 1;
        assert(lines.deep_view().subrange(0, i as int).drop_last() =~= lines.deep_view().subrange(0, i - 1));
    }
    assert(lines.deep_view().subrange(0, i as int) =~= lines.deep_view());
    join_strs(&kept, ",")
}

/// The whole configuration from its parts: enable flag, host and SOCKS port from
/// the SOCKS read, the other ports from their own reads, and the bypass list.
pub fn get_system_proxy(socks: Sysproxy, http: &Sysproxy, https: &Sysproxy, bypass: String) -> (r: Sysproxy)
    ensures
        r.enable == socks.enable,
        r.host@ == socks.host@,
        r.socks_port == socks.socks_port,
        r.http_port == http.http_port,
        r.https_port == https.https_port,
        r.bypass matches Some(b) && b@ == bypass@,
{
    let mut r = socks;
    r.bypass = Some(bypass);
    r.http_port = http.http_port;
    r.https_port = https.https_port;
    r
}

/// The calls that write one protocol's server of `service` and then turn it on
/// or off.
pub fn set_proxy(proxy_type: ProxyType, service: &str, host: &str, port: u16, enabled: bool) -> (r: Vec<Vec<String>>)
    ensures
        r.deep_view() == proxy_calls(proxy_type, service@, host@, port, enabled),
{
    let mut target = String::from_str("-set");
    target.append(proxy_type.to_target());
    let port_text = decimal_string(port);
    let mut target_state = String::from_str("-set");
    target_state.append(proxy_type.to_target());
    target_state.append("state");
    let enable = if enabled {
        "on"
    } else {
        "off"
    };
    let mut r: Vec<Vec<String>> = Vec::new();
    r.push(args_of(&[target.as_str(), service, host, port_text.as_str()]));
    r.push(args_of(&[target_state.as_str(), service, enable]));
    assert(r.deep_view()[0] =~= proxy_calls(proxy_type, service@, host@, port, enabled)[0]);
    assert(r.deep_view()[1] =~= proxy_calls(proxy_type, service@, host@, port, enabled)[1]);
    assert(r.deep_view() =~= proxy_calls(proxy_type, service@, host@, port, enabled));
    r
}

fn port_calls_of(proxy_type: ProxyType, proxy: &Sysproxy, service: &str, port: Option<u16>) -> (r: Vec<Vec<String>>)
    ensures
        r.deep_view() == port_calls(proxy_type, *proxy, service@, port),
{
    match port {
        Some(n) => set_proxy(proxy_type, service, proxy.host.as_str(), n, proxy.enable),
        None => {
            let r: Vec<Vec<String>> = Vec::new();
            assert(r.deep_view() =~= seq![]);
            r
        },
    }
}

/// The calls that apply the HTTP settings to `service`; none where its port is not set.
pub fn set_http(proxy: &Sysproxy, service: &str) -> (r: Vec<Vec<String>>)
    ensures
        r.deep_view() == port_calls(ProxyType::HTTP, *proxy, service@, proxy.http_port),
{
    port_calls_of(ProxyType::HTTP, proxy, service, proxy.http_port)
}

/// The calls that apply the HTTPS settings to `service`; none where its port is not set.
pub fn set_https(proxy: &Sysproxy, service: &str) -> (r: Vec<Vec<String>>)
    ensures
        r.deep_view() == port_calls(ProxyType::HTTPS, *proxy, service@, proxy.https_port),
{
    port_calls_of(ProxyType::HTTPS, proxy, service, proxy.https_port)
}

/// The calls that apply the SOCKS settings to `service`; none where its port is not set.
pub fn set_socks(proxy: &Sysproxy, service: &str) -> (r: Vec<Vec<String>>)
    ensures
        r.deep_view() == port_calls(ProxyType::SOCKS, *proxy, service@, proxy.socks_port),
{
    port_calls_of(ProxyType::SOCKS, proxy, service, proxy.socks_port)
}

/// The call that writes the bypass domains of `service`; none where the list is
/// not set.
pub fn set_bypass(proxy: &Sysproxy, service: &str) -> (r: Vec<Vec<String>>)
    ensures
        r.deep_view() == bypass_calls(*proxy, service@),
{
    let mut r: Vec<Vec<String>> = Vec::new();
    match &proxy.bypass {
        Some(b) => {
            let mut call = args_of(&["-setproxybypassdomains", service]);
            let ghost head = call.deep_view();
            let mut domains = split_str(b.as_str(), ",");
            let ghost tail = domains.deep_view();
            call.append(&mut domains);
            assert(call.deep_view() =~= head + tail);
            r.push(call);
            assert(head =~= seq!["-setproxybypassdomains"@, service@]);
        },
        None => {},
    }
    assert(r.deep_view() =~= bypass_calls(*proxy, service@));
    r
}

/// All calls that apply `proxy` to `service`, in order.
pub fn set_system_proxy(proxy: &Sysproxy, service: &str) -> (r: Vec<Vec<String>>)
    ensures
        r.deep_view() == system_calls(*proxy, service@),
{
    let mut r = set_socks(proxy, service);
    let mut https = set_https(proxy, service);
    let mut http = set_http(proxy, service);
    let mut bypass = set_bypass(proxy, service);
    let ghost parts = (r.deep_view(), https.deep_view(), http.deep_view(), bypass.deep_view());
    r.append(&mut https);
    r.append(&mut http);
    r.append(&mut bypass);
    assert(r.deep_view() =~= parts.0 + parts.1 + parts.2 + parts.3);
    r
}

/// The value of the last line that begins with `label`, from `skip` on.
fn last_labeled_of(lines: &Vec<String>, label: &str, skip: usize) -> (r: Option<String>)
    ensures
        r matches Some(v) ==> last_labeled(lines.deep_view(), label@, skip as int) == Some(v@),
        r is None ==> last_labeled(lines.deep_view(), label@, skip as int) is None,
{
    let mut found: Option<String> = None;
    let mut i: usize = 0;
    while i < lines.len()
        invariant
            i <= lines@.len(),
            found matches Some(v) ==> last_labeled(lines.deep_view().subrange(0, i as int), label@, skip as int) == Some(v@),
            found is None ==> last_labeled(lines.deep_view().subrange(0, i as int), label@, skip as int) is None,
        decreases lines@.len() - i,
    {
        let line = lines[i].as_str();
        assert(lines.deep_view().subrange(0, i + 1).drop_last() =~= lines.deep_view().subrange(0, i as int));
        assert(lines.deep_view().subrange(0, i + 1).last() == line@);
        if starts_with_str(line, label) {
            let n = line.unicode_len();
            if skip <= n {
                found = Some(String::from_str(line.substring_char(skip, n)));
            } else {
                found = Some(String::new());
            }
        }
        i += 1;
    }
    assert(lines.deep_view().subrange(0, i as int) =~= lines.deep_view());
    found
}

fn block_port_of(block: &str, device: &str) -> (r: Option<String>)
    ensures
        r matches Some(v) ==> block_port(block@, device@) == Some(v@),
        r is None ==> block_port(block@, device@) is None,
{
    proof {
        reveal_strlit("Device:");
        reveal_strlit("Hardware Port:");
    }
    let lines = split_str(block, "\n");
    match last_labeled_of(&lines, "Device:", 8) {
        Some(d) => if same_text(d.as_str(), device) {
            last_labeled_of(&lines, "Hardware Port:", 15)
        } else {
            None
        },
        None => None,
    }
}

/// The service name (hardware port) of the interface `device`, from the text
/// that `-listallhardwareports` prints.
pub fn get_service_by_device(device: &str, listing: &str) -> (r: Result<String>)
    ensures
        service_of_device(listing@, device@) matches Some(s) ==> (r matches Ok(v) && v@ == s),
        service_of_device(listing@, device@) is None ==> r == Err::<String, Error>(Error::NetworkInterface),
{
    let blocks = split_str(listing, "Ethernet Address:");
    let mut i: usize = 0;
    assert(blocks.deep_view().subrange(0, blocks@.len() as int) =~= blocks.deep_view());
    while i < blocks.len()
        invariant
            i <= blocks@.len(),
            service_of_device(listing@, device@) == first_port(blocks.deep_view().subrange(i as int, blocks@.len() as int), device@),
        decreases blocks@.len() - i,
    {
        let ghost rest = blocks.deep_view().subrange(i as int, blocks@.len() as int);
        assert(rest[0] == blocks[i as int]@);
        assert(rest.drop_first() =~= blocks.deep_view().subrange(i + 1, blocks@.len() as int));
        match block_port_of(blocks[i].as_str(), device) {
            Some(h) => return Ok(h),
            None => {},
        }
        i += 1;
    }
    Err(Error::NetworkInterface)
}

/// The position of the first interface of which `local` is an address.
pub fn find_interface(local: &str, interfaces: &Vec<NetInterface>) -> (r: Option<usize>)
    ensures
        r matches Some(i) ==> i < interfaces@.len() && interface_from(interfaces@, local@, 0) == Some(i as int),
        r is None ==> interface_from(interfaces@, local@, 0) is None,
{
    let target = String::from_str(local);
    let mut i: usize = 0;
    while i < interfaces.len()
        invariant
            i <= interfaces@.len(),
            target@ == local@,
            interface_from(interfaces@, local@, 0) == interface_from(interfaces@, local@, i as int),
        decreases interfaces@.len() - i,
    {
        let addrs = &interfaces[i].addresses;
        let mut k: usize = 0;
        while k < addrs.len()
            invariant
                k <= addrs@.len(),
                i < interfaces@.len(),
                target@ == local@,
                interface_from(interfaces@, local@, 0) == interface_from(interfaces@, local@, i as int),
                *addrs == interfaces@[i as int].addresses,
                forall|m: int| 0 <= m < k ==> (#[trigger] addrs@[m])@ != local@,
            decreases addrs@.len() - k,
        {
            if addrs[k] == target {
                assert(has_address(interfaces@[i as int], local@));
                return Some(i);
            }
            k += 1;
        }
        assert(!has_address(interfaces@[i as int], local@));
        i += 1;
    }
    None
}

/// The network service in use: the hardware port of the interface that holds
/// `local`, the address from which outbound traffic leaves, looked up in the
/// text that `-listallhardwareports` prints.
pub fn default_network_service(local: &str, interfaces: &Vec<NetInterface>, listing: &str) -> (r: Result<String>)
    ensures
        interface_from(interfaces@, local@, 0) is None ==> r == Err::<String, Error>(Error::NetworkInterface),
        interface_from(interfaces@, local@, 0) matches Some(i) ==> (match service_of_device(listing@, interfaces@[i].name@) {
            Some(s) => r matches Ok(v) && v@ == s,
            None => r == Err::<String, Error>(Error::NetworkInterface),
        }),
{
    match find_interface(local, interfaces) {
        Some(i) => get_service_by_device(interfaces[i].name.as_str(), listing),
        None => Err(Error::NetworkInterface),
    }
}

} // verus!
