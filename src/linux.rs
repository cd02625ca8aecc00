//! Linux desktops: the proxy settings of the `org.gnome.system.proxy` schema,
//! read and written one key at a time with `gsettings get|set <schema> <key>`.
//!
//! The functions here build the argument lists of those calls and read the text
//! the `get` calls print; each `Vec<String>` in a result is one call, in order.
use crate::text::{
    args_of, chars_of, decimal, decimal_string, is_ws, join, join_strs, lacks,
    lemma_join_longer_sep, lemma_join_of_split, lemma_split_lacks, lemma_split_of_join,
    lemma_trim_exact, parse_u16, parse_u16_str, same_text, split, split_str, trim, trim_str,
};
use crate::{is_record, Error, Result, Sysproxy};
use vstd::prelude::*;

verus! {

/// The schema of the mode and the bypass list, as the tool names it.
pub const CMD_KEY: &'static str = "org.gnome.system.proxy";

/// The schema of the mode and the bypass list.
pub open spec fn proxy_schema() -> Seq<char> {
    "org.gnome.system.proxy"@
}

/// The schema of one protocol's host and port.
pub open spec fn service_schema(service: Seq<char>) -> Seq<char> {
    proxy_schema() + "."@ + service
}

/// The single quotes that the tool prints around a text value, taken off.
pub open spec fn strip_quotes(s: Seq<char>) -> Seq<char> {
    if s.len() > 0 && s[0] == '\'' {
        if s.len() > 1 && s.last() == '\'' {
            s.subrange(1, s.len() - 1)
        } else {
            s
        }
    } else if s.len() > 0 && s.last() == '\'' {
        s.drop_last()
    } else {
        s
    }
}

/// The list brackets around a stored list value, taken off.
pub open spec fn strip_brackets(t: Seq<char>) -> Seq<char> {
    let t1 = if t.len() > 0 && t[0] == '[' {
        t.drop_first()
    } else {
        t
    };
    if t1.len() > 0 && t1.last() == ']' {
        t1.drop_last()
    } else {
        t1
    }
}

/// Whether the printed mode value means that the proxy is on.
pub open spec fn enabled_of_mode(out: Seq<char>) -> bool {
    trim(out) == "'manual'"@
}

/// The stored mode value for an enable flag.
pub open spec fn mode_value(enable: bool) -> Seq<char> {
    if enable {
        "'manual'"@
    } else {
        "'none'"@
    }
}

/// The comma-joined bypass list that a printed `ignore-hosts` value holds.
pub open spec fn bypass_of_store(out: Seq<char>) -> Seq<char> {
    join(split(strip_brackets(trim(out)), ","@).map_values(|p: Seq<char>| strip_quotes(trim(p))), ","@)
}

/// One bypass entry, trimmed and put in single quotes where it has none.
pub open spec fn quote_host(p: Seq<char>) -> Seq<char> {
    let h = trim(p);
    let h1 = if h.len() > 0 && (h[0] == '\'' || h[0] == '"') {
        h
    } else {
        seq!['\''] + h
    };
    if h1.len() > 0 && (h1.last() == '\'' || h1.last() == '"') {
        h1
    } else {
        h1.push('\'')
    }
}

/// The `ignore-hosts` list value written for a comma-joined bypass list.
pub open spec fn store_of_bypass(b: Seq<char>) -> Seq<char> {
    "["@ + join(split(b, ","@).map_values(|p: Seq<char>| quote_host(p)), ", "@) + "]"@
}

/// A printed port value as a port field: 0 stands for no port, and text that
/// is no port number reads as 80.
pub open spec fn port_or_default(out: Seq<char>) -> Option<u16> {
    match parse_u16(trim(out)) {
        Some(p) => if p == 0 {
            None
        } else {
            Some(p)
        },
        None => Some(80),
    }
}

/// The call that writes `value` under `key` of `schema`.
pub open spec fn set_call(schema: Seq<char>, key: Seq<char>, value: Seq<char>) -> Seq<Seq<char>> {
    seq!["set"@, schema, key, value]
}

/// The calls that write one protocol's host and port.
pub open spec fn proxy_calls(service: Seq<char>, host: Seq<char>, port: u16) -> Seq<Seq<Seq<char>>> {
    seq![
        set_call(service_schema(service), "host"@, "'"@ + host + "'"@),
        set_call(service_schema(service), "port"@, decimal(port as nat)),
    ]
}

/// The calls for one protocol of `p`: none where its port is not set.
pub open spec fn port_calls(service: Seq<char>, p: Sysproxy, port: Option<u16>) -> Seq<Seq<Seq<char>>> {
    match port {
        Some(n) => proxy_calls(service, p.host@, n),
        None => seq![],
    }
}

pub open spec fn enable_calls(p: Sysproxy) -> Seq<Seq<Seq<char>>> {
    seq![set_call(proxy_schema(), "mode"@, mode_value(p.enable))]
}

pub open spec fn bypass_calls(p: Sysproxy) -> Seq<Seq<Seq<char>>> {
    match p.bypass {
        Some(b) => seq![set_call(proxy_schema(), "ignore-hosts"@, store_of_bypass(b@))],
        None => seq![],
    }
}

/// All calls that apply `p`: the mode first, then, only when enabling, SOCKS,
/// HTTPS, HTTP and the bypass list.
pub open spec fn system_calls(p: Sysproxy) -> Seq<Seq<Seq<char>>> {
    if p.enable {
        enable_calls(p) + port_calls("socks"@, p, p.socks_port) + port_calls("https"@, p, p.https_port)
            + port_calls("http"@, p, p.http_port) + bypass_calls(p)
    } else {
        enable_calls(p)
    }
}

/// A bypass entry that needs no quoting: non-empty, with no whitespace at
/// either end and no quote anywhere.
pub open spec fn plain_host(p: Seq<char>) -> bool {
    &&& p.len() > 0
    &&& !is_ws(p[0])
    &&& !is_ws(p.last())
    &&& forall|m: int| 0 <= m < p.len() ==> #[trigger] p[m] != '\'' && p[m] != '"'
}

/// Every comma-separated entry of `b` needs no quoting.
pub open spec fn plain_entries(b: Seq<char>) -> bool {
    forall|k: int| 0 <= k < split(b, ","@).len() ==> plain_host(#[trigger] split(b, ","@)[k])
}

/// Applying a configuration writes the mode first, and that mode, read back,
/// is the configuration's own enable flag; a disabled configuration writes
/// nothing but the mode, so the stored hosts and ports stay as they were.
pub proof fn lemma_mode_round_trip(p: Sysproxy)
    ensures
        system_calls(p).len() >= 1,
        system_calls(p)[0] == set_call(proxy_schema(), "mode"@, mode_value(p.enable)),
        enabled_of_mode(mode_value(p.enable)) == p.enable,
        !p.enable ==> system_calls(p) == enable_calls(p),
{
    reveal_strlit("'manual'");
    reveal_strlit("'none'");
    let m = mode_value(p.enable);
    lemma_trim_exact(seq![], m);
    assert(seq![] + m =~= m);
    assert("'manual'"@.len() != "'none'"@.len());
}

/// Writing a bypass list whose entries need no quoting, and reading the stored
/// value back, gives the same comma-joined list.
pub proof fn lemma_bypass_round_trip(b: Seq<char>)
    requires
        plain_entries(b),
    ensures
        bypass_of_store(store_of_bypass(b)) == b,
{
    reveal_strlit(",");
    reveal_strlit(", ");
    reveal_strlit("[");
    reveal_strlit("]");
    let c = ',';
    let q = seq!['\''];
    let t = seq![' '];
    assert(","@ =~= seq![c]);
    assert(", "@ =~= seq![c] + t);
    let parts = split(b, seq![c]);
    lemma_split_lacks(b, c);
    assert(parts.len() >= 1);
    let quoted = parts.map_values(|p: Seq<char>| quote_host(p));
    assert forall|k: int| 0 <= k < parts.len() implies #[trigger] quoted[k] == q + parts[k] + q by {
        let p = parts[k];
        assert(plain_host(p));
        lemma_trim_exact(seq![], p);
        assert(seq![] + p =~= p);
        assert((q + p)[0] == '\'');
        assert((q + p).last() == p.last());
    }
    lemma_join_longer_sep(quoted, c, t);
    let spaced = seq![quoted[0]] + quoted.drop_first().map_values(|x: Seq<char>| t + x);
    assert forall|k: int| 0 <= k < spaced.len() implies #[trigger] spaced[k] == (if k == 0 {
        seq![]
    } else {
        t
    }) + (q + parts[k] + q) by {
        if k == 0 {
            assert(seq![] + quoted[0] =~= quoted[0]);
        } else {
            assert(spaced[k] == t + quoted[k]);
        }
    }
    assert forall|k: int| 0 <= k < spaced.len() implies lacks(#[trigger] spaced[k], c) by {
        let pre: Seq<char> = if k == 0 {
            seq![]
        } else {
            t
        };
        let x = pre + (q + parts[k] + q);
        assert(lacks(parts[k], c));
        assert forall|m: int| 0 <= m < x.len() implies #[trigger] x[m] != c by {
            if m >= pre.len() + 1 && m < pre.len() + 1 + parts[k].len() {
                assert(x[m] == parts[k][m - pre.len() - 1]);
            }
        }
    }
    lemma_split_of_join(spaced, c);
    let inner = join(quoted, seq![c] + t);
    let v = "["@ + inner + "]"@;
    lemma_trim_exact(seq![], v);
    assert(seq![] + v =~= v);
    assert(strip_brackets(v) =~= inner);
    let read = spaced.map_values(|x: Seq<char>| strip_quotes(trim(x)));
    assert forall|k: int| 0 <= k < parts.len() implies #[trigger] read[k] == parts[k] by {
        let pre: Seq<char> = if k == 0 {
            seq![]
        } else {
            t
        };
        let core = q + parts[k] + q;
        assert(spaced[k] == pre + core);
        lemma_trim_exact(pre, core);
        assert(core.subrange(1, core.len() - 1) =~= parts[k]);
    }
    assert(read =~= parts);
    lemma_join_of_split(b, c);
}

/// The schema of one protocol's host and port.
pub fn schema_of(service: &str) -> (r: String)
    ensures
        r@ == service_schema(service@),
{
    let mut r = String::from_str("org.gnome.system.proxy");
    r.append(".");
    r.append(service);
    r
}

/// The call that reads `key` of `schema`.
pub fn get_args(schema: &str, key: &str) -> (r: Vec<String>)
    ensures
        r.deep_view() == seq!["get"@, schema@, key@],
{
    let r = args_of(&["get", schema, key]);
    assert(r.deep_view() =~= seq!["get"@, schema@, key@]);
    r
}

fn set_args(schema: &str, key: &str, value: &str) -> (r: Vec<String>)
    ensures
        r.deep_view() == set_call(schema@, key@, value@),
{
    let r = args_of(&["set", schema, key, value]);
    assert(r.deep_view() =~= set_call(schema@, key@, value@));
    r
}

/// The text of a printed value without its surrounding single quotes.
fn strip_str(text: &str) -> (r: &str)
    ensures
        r@ == strip_quotes(text@),
{
    let cs = chars_of(text);
    let n = cs.len();
    if n > 0 && cs[0] == '\'' {
        if n > 1 && cs[n - 1] == '\'' {
            text.substring_char(1, n - 1)
        } else {
            text
        }
    } else if n > 0 && cs[n - 1] == '\'' {
        text.substring_char(0, n - 1)
    } else {
        text
    }
}

fn quote_one(p: &str) -> (r: String)
    ensures
        r@ == quote_host(p@),
{
    let h = trim_str(p);
    let cs = chars_of(h);
    let mut r = String::new();
    let quoted_start = cs.len() > 0 && (cs[0] == '\'' || cs[0] == '"');
    if !quoted_start {
        r.append("'");
    }
    r.append(h);
    let rc = chars_of(r.as_str());
    let n = rc.len();
    if !(n > 0 && (rc[n - 1] == '\'' || rc[n - 1] == '"')) {
        r.append("'");
    }
    proof {
        reveal_strlit("'");
    }
    r
}

/// One protocol's settings as the tool prints them: `host` and `port` text.
/// Unknown protocol names are refused.
pub fn get_proxy(service: &str, host_out: &str, port_out: &str) -> (r: Result<Sysproxy>)
    ensures
        service@ == "http"@ ==> (r matches Ok(p) && is_record(
            p,
            false,
            strip_quotes(trim(host_out@)),
            port_or_default(port_out@),
            None,
            None,
        )),
        service@ == "https"@ ==> (r matches Ok(p) && is_record(
            p,
            false,
            strip_quotes(trim(host_out@)),
            None,
            port_or_default(port_out@),
            None,
        )),
        service@ == "socks"@ ==> (r matches Ok(p) && is_record(
            p,
            false,
            strip_quotes(trim(host_out@)),
            None,
            None,
            port_or_default(port_out@),
        )),
        service@ != "http"@ && service@ != "https"@ && service@ != "socks"@ ==> r == Err::<
            Sysproxy,
            Error,
        >(Error::ParseStr),
{
    proof {
        reveal_strlit("http");
        reveal_strlit("https");
        reveal_strlit("socks");
        assert("http"@.len() != "https"@.len());
        assert("socks"@[0] != "http"@[0] && "socks"@[0] != "https"@[0]);
    }
    let host = String::from_str(strip_str(trim_str(host_out)));
    let port = match parse_u16_str(trim_str(port_out)) {
        Some(p) => if p == 0 {
            None
        } else {
            Some(p)
        },
        None => Some(80u16),
    };
    if same_text(service, "http") {
        Ok(
            Sysproxy {
                enable: false,
                host,
                http_port: port,
                https_port: None,
                socks_port: None,
                bypass: None,
            },
        )
    } else if same_text(service, "https") {
        Ok(
            Sysproxy {
                enable: false,
                host,
                http_port: None,
                https_port: port,
                socks_port: None,
                bypass: None,
            },
        )
    } else if same_text(service, "socks") {
        Ok(
            Sysproxy {
                enable: false,
                host,
                http_port: None,
                https_port: None,
                socks_port: port,
                bypass: None,
            },
        )
    } else {
        Err(Error::ParseStr)
    }
}

/// The calls that write one protocol's host, in single quotes, and its port.
pub fn set_proxy(service: &str, host: &str, port: u16) -> (r: Vec<Vec<String>>)
    ensures
        r.deep_view() == proxy_calls(service@, host@, port),
{
    let schema = schema_of(service);
    let mut quoted = String::from_str("'");
    quoted.append(host);
    quoted.append("'");
    let port_text = decimal_string(port);
    let mut r: Vec<Vec<String>> = Vec::new();
    r.push(set_args(schema.as_str(), "host", quoted.as_str()));
    r.push(set_args(schema.as_str(), "port", port_text.as_str()));
    assert(r.deep_view() =~= proxy_calls(service@, host@, port));
    r
}

impl Sysproxy {
    /// Whether the proxy is on, from the printed `mode` value.
    pub fn get_enable(mode: &str) -> (r: bool)
        ensures
            r == enabled_of_mode(mode@),
    {
        same_text(trim_str(mode), "'manual'")
    }

    /// The comma-joined bypass list, from the printed `ignore-hosts` value.
    pub fn get_bypass(ignore_hosts: &str) -> (r: String)
        ensures
            r@ == bypass_of_store(ignore_hosts@),
    {
        let t = trim_str(ignore_hosts);
        let cs = chars_of(t);
        let n = cs.len();
        let start: usize = if n > 0 && cs[0] == '[' {
            1
        } else {
            0
        };
        let end: usize = if n > start && cs[n - 1] == ']' {
            n - 1
        } else {
            n
        };
        let inner = t.substring_char(start, end);
        assert(inner@ =~= strip_brackets(t@));
        let pieces = split_str(inner, ",");
        let mut hosts: Vec<String> = Vec::new();
        let mut i: usize = 0;
        while i < pieces.len()
            invariant
                i <= pieces@.len(),
                hosts@.len() == i,
                forall|k: int| 0 <= k < i ==> (#[trigger] hosts@[k])@ == strip_quotes(trim(pieces@[k]@)),
            decreases pieces@.len() - i,
        {
            let h = String::from_str(strip_str(trim_str(pieces[i].as_str())));
            hosts.push(h);
            i += 1;
        }
        assert(hosts.deep_view() =~= pieces.deep_view().map_values(|p: Seq<char>| strip_quotes(trim(p))));
        join_strs(&hosts, ",")
    }

    /// HTTP settings, from the printed `host` and `port` of its schema.
    pub fn get_http(host_out: &str, port_out: &str) -> (r: Sysproxy)
        ensures
            is_record(r, false, strip_quotes(trim(host_out@)), port_or_default(port_out@), None, None),
    {
        match get_proxy("http", host_out, port_out) {
            Ok(p) => p,
            Err(_) => Sysproxy {
                enable: false,
                host: String::new(),
                http_port: None,
                https_port: None,
                socks_port: None,
                bypass: None,
            },
        }
    }

    /// HTTPS settings, from the printed `host` and `port` of its schema.
    pub fn get_https(host_out: &str, port_out: &str) -> (r: Sysproxy)
        ensures
            is_record(r, false, strip_quotes(trim(host_out@)), None, port_or_default(port_out@), None),
    {
        match get_proxy("https", host_out, port_out) {
            Ok(p) => p,
            Err(_) => Sysproxy {
                enable: false,
                host: String::new(),
                http_port: None,
                https_port: None,
                socks_port: None,
                bypass: None,
            },
        }
    }

    /// SOCKS settings, from the printed `host` and `port` of its schema.
    pub fn get_socks(host_out: &str, port_out: &str) -> (r: Sysproxy)
        ensures
            is_record(r, false, strip_quotes(trim(host_out@)), None, None, port_or_default(port_out@)),
    {
        match get_proxy("socks", host_out, port_out) {
            Ok(p) => p,
            Err(_) => Sysproxy {
                enable: false,
                host: String::new(),
                http_port: None,
                https_port: None,
                socks_port: None,
                bypass: None,
            },
        }
    }

    /// The whole configuration from its parts: host and SOCKS port from the
    /// SOCKS read, the other ports from their own reads, then the mode and the
    /// bypass list (absent where it could not be read).
    pub fn get_system_proxy(enable: bool, socks: Sysproxy, https: &Sysproxy, http: &Sysproxy, bypass: Option<String>) -> (r: Sysproxy)
        ensures
            r.enable == enable,
            r.host@ == socks.host@,
            r.socks_port == socks.socks_port,
            r.https_port == https.https_port,
            r.http_port == http.http_port,
            r.bypass == bypass,
    {
        let mut r = socks;
        r.http_port = http.http_port;
        r.https_port = https.https_port;
        r.enable = enable;
        r.bypass = bypass;
        r
    }

    /// All calls that apply this configuration, in order.
    pub fn set_system_proxy(&self) -> (r: Vec<Vec<String>>)
        ensures
            r.deep_view() == system_calls(*self),
    {
        let mut r = self.set_enable();
        if self.enable {
            let mut socks = self.set_socks();
            let mut https = self.set_https();
            let mut http = self.set_http();
            let mut bypass = self.set_bypass();
            let ghost parts = (r.deep_view(), socks.deep_view(), https.deep_view(), http.deep_view(), bypass.deep_view());
            r.append(&mut socks);
            r.append(&mut https);
            r.append(&mut http);
            r.append(&mut bypass);
            assert(r.deep_view() =~= parts.0 + parts.1 + parts.2 + parts.3 + parts.4);
        }
        r
    }

    /// The call that writes the mode: `'manual'` when enabling, else `'none'`.
    pub fn set_enable(&self) -> (r: Vec<Vec<String>>)
        ensures
            r.deep_view() == enable_calls(*self),
    {
        let mode = if self.enable {
            "'manual'"
        } else {
            "'none'"
        };
        let mut r: Vec<Vec<String>> = Vec::new();
        r.push(set_args("org.gnome.system.proxy", "mode", mode));
        assert(r.deep_view() =~= enable_calls(*self));
        r
    }

    /// The call that writes the bypass list as a list of quoted entries; none
    /// where the list is not set.
    pub fn set_bypass(&self) -> (r: Vec<Vec<String>>)
        ensures
            r.deep_view() == bypass_calls(*self),
    {
        let mut r: Vec<Vec<String>> = Vec::new();
        match &self.bypass {
            Some(b) => {
                let pieces = split_str(b.as_str(), ",");
                let mut hosts: Vec<String> = Vec::new();
                let mut i: usize = 0;
                while i < pieces.len()
                    invariant
                        i <= pieces@.len(),
                        hosts@.len() == i,
                        forall|k: int| 0 <= k < i ==> (#[trigger] hosts@[k])@ == quote_host(pieces@[k]@),
                    decreases pieces@.len() - i,
                {
                    hosts.push(quote_one(pieces[i].as_str()));
                    i += 1;
                }
                assert(hosts.deep_view() =~= pieces.deep_view().map_values(|p: Seq<char>| quote_host(p)));
                let mut value = String::from_str("[");
                let joined = join_strs(&hosts, ", ");
                value.append(joined.as_str());
                value.append("]");
                r.push(set_args("org.gnome.system.proxy", "ignore-hosts", value.as_str()));
            },
            None => {},
        }
        assert(r.deep_view() =~= bypass_calls(*self));
        r
    }

    /// The calls that write the HTTP host and port; none where the port is not set.
    pub fn set_http(&self) -> (r: Vec<Vec<String>>)
        ensures
            r.deep_view() == port_calls("http"@, *self, self.http_port),
    {
        match self.http_port {
            Some(port) => set_proxy("http", self.host.as_str(), port),
            None => {
                let r: Vec<Vec<String>> = Vec::new();
                assert(r.deep_view() =~= seq![]);
                r
            },
        }
    }

    /// The calls that write the HTTPS host and port; none where the port is not set.
    pub fn set_https(&self) -> (r: Vec<Vec<String>>)
        ensures
            r.deep_view() == port_calls("https"@, *self, self.https_port),
    {
        match self.https_port {
            Some(port) => set_proxy("https", self.host.as_str(), port),
            None => {
                let r: Vec<Vec<String>> = Vec::new();
                assert(r.deep_view() =~= seq![]);
                r
            },
        }
    }

    /// The calls that write the SOCKS host and port; none where the port is not set.
    pub fn set_socks(&self) -> (r: Vec<Vec<String>>)
        ensures
            r.deep_view() == port_calls("socks"@, *self, self.socks_port),
    {
        match self.socks_port {
            Some(port) => set_proxy("socks", self.host.as_str(), port),
            None => {
                let r: Vec<Vec<String>> = Vec::new();
                assert(r.deep_view() =~= seq![]);
                r
            },
        }
    }
}

} // verus!
