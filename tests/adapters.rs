use sysproxy::linux;
use sysproxy::macos::{self, NetInterface, ProxyType};
use sysproxy::text;
use sysproxy::windows::{self, RegValue};
use sysproxy::{Error, Sysproxy};

fn calls(v: &[&[&str]]) -> Vec<Vec<String>> {
    v.iter().map(|c| c.iter().map(|s| s.to_string()).collect()).collect()
}

fn config(enable: bool, http: Option<u16>, https: Option<u16>, socks: Option<u16>, bypass: Option<&str>) -> Sysproxy {
    Sysproxy {
        enable,
        host: "127.0.0.1".to_string(),
        http_port: http,
        https_port: https,
        socks_port: socks,
        bypass: bypass.map(|b| b.to_string()),
    }
}

#[test]
fn support_is_reported() {
    assert!(Sysproxy::is_support());
}

#[test]
fn linux_bypass_list_literal_is_flattened() {
    assert_eq!(Sysproxy::get_bypass("[ 'a.com', 'b.com' ]"), "a.com,b.com");
    assert_eq!(Sysproxy::get_bypass("['localhost', '127.0.0.0/8']\n"), "localhost,127.0.0.0/8");
}

#[test]
fn linux_bypass_round_trips_through_the_store() {
    let p = config(true, None, None, None, Some("a.com,b.com,c.com"));
    let written = p.set_bypass();
    assert_eq!(
        written,
        calls(&[&["set", "org.gnome.system.proxy", "ignore-hosts", "['a.com', 'b.com', 'c.com']"]])
    );
    assert_eq!(Sysproxy::get_bypass(&written[0][3]), "a.com,b.com,c.com");
}

#[test]
fn linux_bypass_keeps_existing_quotes() {
    let p = config(true, None, None, None, Some(" 'a.com' ,\"b.com\""));
    assert_eq!(
        p.set_bypass(),
        calls(&[&["set", "org.gnome.system.proxy", "ignore-hosts", "['a.com', \"b.com\"]"]])
    );
    assert!(config(true, None, None, None, None).set_bypass().is_empty());
}

#[test]
fn linux_mode_reads_as_enable_flag() {
    assert!(Sysproxy::get_enable("'manual'\n"));
    assert!(!Sysproxy::get_enable("'none'\n"));
    assert!(!Sysproxy::get_enable("'auto'"));
}

#[test]
fn linux_protocol_reads() {
    let h = Sysproxy::get_http("'127.0.0.1'\n", "8080\n");
    assert_eq!(h, config(false, Some(8080), None, None, None));
    let s = Sysproxy::get_https("'127.0.0.1'", "abc");
    assert_eq!(s, config(false, None, Some(80), None, None));
    let k = Sysproxy::get_socks("127.0.0.1", "1080");
    assert_eq!(k, config(false, None, None, Some(1080), None));
    assert_eq!(linux::get_proxy("ftp", "'h'", "1"), Err(Error::ParseStr));
}

#[test]
fn linux_aggregate_read() {
    let socks = Sysproxy::get_socks("'127.0.0.1'", "1080");
    let https = Sysproxy::get_https("'other'", "443");
    let http = Sysproxy::get_http("'other'", "8080");
    let all = Sysproxy::get_system_proxy(true, socks, &https, &http, Some("a.com".to_string()));
    assert_eq!(all, config(true, Some(8080), Some(443), Some(1080), Some("a.com")));
}

#[test]
fn linux_disabling_writes_only_the_mode() {
    let p = config(false, Some(8080), Some(8080), Some(1080), Some("a.com"));
    let written = p.set_system_proxy();
    assert_eq!(written, calls(&[&["set", "org.gnome.system.proxy", "mode", "'none'"]]));
    assert!(!Sysproxy::get_enable(&written[0][3]));
}

#[test]
fn linux_enabling_writes_in_order() {
    let p = config(true, Some(8080), None, Some(1080), Some("a.com"));
    assert_eq!(
        p.set_system_proxy(),
        calls(&[
            &["set", "org.gnome.system.proxy", "mode", "'manual'"],
            &["set", "org.gnome.system.proxy.socks", "host", "'127.0.0.1'"],
            &["set", "org.gnome.system.proxy.socks", "port", "1080"],
            &["set", "org.gnome.system.proxy.http", "host", "'127.0.0.1'"],
            &["set", "org.gnome.system.proxy.http", "port", "8080"],
            &["set", "org.gnome.system.proxy", "ignore-hosts", "['a.com']"],
        ])
    );
    assert!(Sysproxy::get_enable(&p.set_enable()[0][3]));
    assert!(p.set_https().is_empty());
}

#[test]
fn linux_reads_use_get_calls() {
    assert_eq!(linux::schema_of("https"), "org.gnome.system.proxy.https");
    assert_eq!(
        linux::get_args("org.gnome.system.proxy", "mode"),
        vec!["get".to_string(), "org.gnome.system.proxy".to_string(), "mode".to_string()]
    );
    assert_eq!(
        linux::set_proxy("http", "h", 65535),
        calls(&[
            &["set", "org.gnome.system.proxy.http", "host", "'h'"],
            &["set", "org.gnome.system.proxy.http", "port", "65535"],
        ])
    );
}

#[test]
fn macos_parses_labeled_lines() {
    let out = "Enabled: Yes\nServer: 127.0.0.1\nPort: 1080\nAuthenticated Proxy Enabled: 0\n";
    let p = macos::get_proxy(ProxyType::SOCKS, out).unwrap();
    assert!(p.enable);
    assert_eq!(p.host, "127.0.0.1");
    assert_eq!(p.socks_port, Some(1080));
    assert_eq!(p.http_port, None);
    let h = macos::get_http(out).unwrap();
    assert_eq!(h.http_port, Some(1080));
    let s = macos::get_https(out).unwrap();
    assert_eq!(s.https_port, Some(1080));
}

#[test]
fn macos_port_zero_is_unset() {
    let out = "Enabled: No\nServer: \nPort: 0\n";
    let p = macos::get_socks(out).unwrap();
    assert!(!p.enable);
    assert_eq!(p.host, "");
    assert_eq!(p.socks_port, None);
}

#[test]
fn macos_missing_port_is_a_parse_error() {
    assert_eq!(macos::get_http("Enabled: Yes\nServer: h\n"), Err(Error::ParseStr));
    assert_eq!(macos::get_http("Enabled: Yes\nPort: x\n"), Err(Error::ParseStr));
}

#[test]
fn macos_bypass_lines_are_joined() {
    assert_eq!(macos::get_bypass("a.com\n\nb.com\n"), "a.com,b.com");
    assert_eq!(macos::get_bypass(""), "");
}

#[test]
fn macos_aggregate_read() {
    let socks = macos::get_socks("Enabled: Yes\nServer: h\nPort: 1080\n").unwrap();
    let http = macos::get_http("Enabled: No\nServer: x\nPort: 8080\n").unwrap();
    let https = macos::get_https("Enabled: No\nServer: x\nPort: 0\n").unwrap();
    let all = macos::get_system_proxy(socks, &http, &https, "a.com".to_string());
    assert!(all.enable);
    assert_eq!(all.host, "h");
    assert_eq!(all.http_port, Some(8080));
    assert_eq!(all.https_port, None);
    assert_eq!(all.socks_port, Some(1080));
    assert_eq!(all.bypass, Some("a.com".to_string()));
}

#[test]
fn macos_writes_server_then_state() {
    assert_eq!(
        macos::set_proxy(ProxyType::HTTPS, "Wi-Fi", "h", 443, false),
        calls(&[
            &["-setsecurewebproxy", "Wi-Fi", "h", "443"],
            &["-setsecurewebproxystate", "Wi-Fi", "off"],
        ])
    );
    let p = config(true, Some(8080), None, Some(1080), Some("a.com,b.com"));
    assert_eq!(
        macos::set_system_proxy(&p, "Wi-Fi"),
        calls(&[
            &["-setsocksfirewallproxy", "Wi-Fi", "127.0.0.1", "1080"],
            &["-setsocksfirewallproxystate", "Wi-Fi", "on"],
            &["-setwebproxy", "Wi-Fi", "127.0.0.1", "8080"],
            &["-setwebproxystate", "Wi-Fi", "on"],
            &["-setproxybypassdomains", "Wi-Fi", "a.com", "b.com"],
        ])
    );
    assert!(macos::set_https(&p, "Wi-Fi").is_empty());
    assert_eq!(macos::set_http(&p, "Wi-Fi").len(), 2);
    assert_eq!(macos::set_socks(&p, "Wi-Fi").len(), 2);
    assert_eq!(
        macos::set_bypass(&p, "Wi-Fi"),
        calls(&[&["-setproxybypassdomains", "Wi-Fi", "a.com", "b.com"]])
    );
}

const PORTS: &str = "\nHardware Port: Ethernet\nDevice: en1\nEthernet Address: aa:bb:cc:dd:ee:ff\n\nHardware Port: Wi-Fi\nDevice: en0\nEthernet Address: 11:22:33:44:55:66\n";

#[test]
fn macos_service_by_device() {
    assert_eq!(macos::get_service_by_device("en0", PORTS), Ok("Wi-Fi".to_string()));
    assert_eq!(macos::get_service_by_device("en1", PORTS), Ok("Ethernet".to_string()));
    assert_eq!(macos::get_service_by_device("en9", PORTS), Err(Error::NetworkInterface));
}

#[test]
fn macos_default_service_resolution() {
    let ifaces = vec![
        NetInterface { name: "lo0".to_string(), addresses: vec!["127.0.0.1:0".to_string()] },
        NetInterface {
            name: "en0".to_string(),
            addresses: vec!["[fe80::1]:0".to_string(), "192.168.1.5:0".to_string()],
        },
    ];
    assert_eq!(macos::find_interface("192.168.1.5:0", &ifaces), Some(1));
    assert_eq!(macos::default_network_service("192.168.1.5:0", &ifaces, PORTS), Ok("Wi-Fi".to_string()));
    assert_eq!(macos::default_network_service("10.0.0.9:0", &ifaces, PORTS), Err(Error::NetworkInterface));
    let other = "\nHardware Port: Thunderbolt\nDevice: en5\nEthernet Address: 00\n";
    assert_eq!(macos::default_network_service("192.168.1.5:0", &ifaces, other), Err(Error::NetworkInterface));
}

#[test]
fn windows_read_uses_socks_field() {
    let p = windows::get_system_proxy(1, "10.0.0.1".to_string(), 8080, None);
    assert_eq!(p, Sysproxy {
        enable: true,
        host: "10.0.0.1".to_string(),
        http_port: None,
        https_port: None,
        socks_port: Some(8080),
        bypass: None,
    });
    assert!(!windows::get_system_proxy(0, "h".to_string(), 1, None).enable);
    assert!(!windows::get_system_proxy(2, "h".to_string(), 1, None).enable);
}

#[test]
fn windows_writes() {
    let p = config(false, None, None, Some(1080), Some("localhost;<local>"));
    let w = windows::set_system_proxy(&p);
    assert_eq!(w.len(), 3);
    assert_eq!(w[0].name, "ProxyEnable");
    assert!(matches!(w[0].value, RegValue::Dword(0)));
    assert_eq!(w[1].name, "ProxyServer");
    assert!(matches!(&w[1].value, RegValue::Text(s) if s == "127.0.0.1:1080"));
    assert_eq!(w[2].name, "ProxyOverride");
    assert!(matches!(&w[2].value, RegValue::Text(s) if s == "localhost;<local>"));
    let q = config(true, None, None, None, None);
    let w = windows::set_system_proxy(&q);
    assert_eq!(w.len(), 1);
    assert!(matches!(w[0].value, RegValue::Dword(1)));
    assert_eq!(windows::sub_key(), "SOFTWARE\\Microsoft\\Windows\\CurrentVersion\\Internet Settings");
}

#[test]
fn text_numbers() {
    assert_eq!(text::decimal_string(0), "0");
    assert_eq!(text::decimal_string(65535), "65535");
    assert_eq!(text::parse_u16_str("+12"), Some(12));
    assert_eq!(text::parse_u16_str("65535"), Some(65535));
    assert_eq!(text::parse_u16_str("65536"), None);
    assert_eq!(text::parse_u16_str(""), None);
    assert_eq!(text::parse_u16_str("+"), None);
    assert_eq!(text::parse_u16_str("-1"), None);
}

#[test]
fn text_pieces() {
    assert_eq!(text::trim_str(" \t a b \u{3000}\n"), "a b");
    assert_eq!(text::split_str("a,,b", ","), vec!["a".to_string(), "".to_string(), "b".to_string()]);
    assert_eq!(text::split_str("xABy", "AB"), vec!["x".to_string(), "y".to_string()]);
    assert_eq!(text::join_strs(&vec!["a".to_string(), "b".to_string()], ", "), "a, b");
    assert_eq!(text::find_str("abcabc", "ca"), Some(2));
    assert!(text::starts_with_str("Device: en0", "Device:"));
    assert!(text::same_text("a", "a"));
}

#[test]
fn windows_disabled_reads_back_disabled() {
    let p = config(false, None, None, Some(1080), None);
    let w = windows::set_system_proxy(&p);
    let stored = match w[0].value {
        RegValue::Dword(n) => n,
        RegValue::Text(_) => panic!("ProxyEnable is a number"),
    };
    let back = windows::get_system_proxy(stored, "127.0.0.1".to_string(), 1080, None);
    assert!(!back.enable);
    assert_eq!(back.socks_port, Some(1080));
}

#[test]
fn linux_port_zero_is_unset() {
    let h = Sysproxy::get_http("'127.0.0.1'\n", "0\n");
    assert_eq!(h, config(false, None, None, None, None));
    assert_eq!(Sysproxy::get_socks("''", "0").socks_port, None);
    assert_eq!(linux::get_proxy("https", "'h'", "0"), Ok(Sysproxy {
        enable: false,
        host: "h".to_string(),
        http_port: None,
        https_port: None,
        socks_port: None,
        bypass: None,
    }));
}

#[test]
fn linux_bypass_with_inner_space_round_trips() {
    let p = config(true, None, None, None, Some("a b.com,c.com"));
    let written = p.set_bypass();
    assert_eq!(written[0][3], "['a b.com', 'c.com']");
    assert_eq!(Sysproxy::get_bypass(&written[0][3]), "a b.com,c.com");
}
