use awg_tray::json::JsonValue;
use awg_tray::percent::percent_decode;
use awg_tray::vless::{split_host_port, VlessLink};
use serde_json::Value;

const SAMPLE: &str = "vless://bbbf5c14-d37d-484d-a5ae-5dbfd816a869@po.superbhost.xyz:443?type=tcp&security=reality&encryption=none&flow=xtls-rprx-vision&sni=cdn14.supermegacdn.com&fp=firefox&pbk=PVlnR_I9tZ8hKhOHW6ySpSofhsaShcBQ_JV2-0TePVA&sid=9bde6a1e7b42e680&spx=%2F#RedShieldVPN_Poland";

/// The document read back from the library's JSON text, for indexing.
fn to_value(j: &JsonValue) -> Value {
    serde_json::from_str(&j.to_pretty_string()).unwrap()
}

#[test]
fn parses_reality_link() {
    let l = VlessLink::parse(SAMPLE).unwrap();
    assert_eq!(l.uuid, "bbbf5c14-d37d-484d-a5ae-5dbfd816a869");
    assert_eq!(l.host, "po.superbhost.xyz");
    assert_eq!(l.port, 443);
    assert_eq!(l.transport, "tcp");
    assert_eq!(l.security, "reality");
    assert_eq!(l.flow.as_deref(), Some("xtls-rprx-vision"));
    assert_eq!(l.sni.as_deref(), Some("cdn14.supermegacdn.com"));
    assert_eq!(l.fingerprint.as_deref(), Some("firefox"));
    assert_eq!(
        l.public_key.as_deref(),
        Some("PVlnR_I9tZ8hKhOHW6ySpSofhsaShcBQ_JV2-0TePVA")
    );
    assert_eq!(l.short_id.as_deref(), Some("9bde6a1e7b42e680"));
    assert_eq!(l.label.as_deref(), Some("RedShieldVPN_Poland"));
}

#[test]
fn builds_singbox_config() {
    let l = VlessLink::parse(SAMPLE).unwrap();
    let cfg = to_value(&l.to_singbox_config("tun-vless", Some("1.2.3.4"), &[]));
    let out = &cfg["outbounds"][0];
    assert_eq!(out["type"], "vless");
    // server is the pre-resolved IP; SNI stays the reality hostname.
    assert_eq!(out["server"], "1.2.3.4");
    assert_eq!(out["server_port"], 443);
    assert_eq!(out["flow"], "xtls-rprx-vision");
    assert_eq!(
        out["tls"]["reality"]["public_key"],
        "PVlnR_I9tZ8hKhOHW6ySpSofhsaShcBQ_JV2-0TePVA"
    );
    assert_eq!(out["tls"]["reality"]["short_id"], "9bde6a1e7b42e680");
    assert_eq!(out["tls"]["server_name"], "cdn14.supermegacdn.com");
    assert_eq!(out["tls"]["utls"]["fingerprint"], "firefox");
    assert_eq!(cfg["inbounds"][0]["interface_name"], "tun-vless");
    // LAN ranges are excluded so the local network stays reachable, and the
    // server IP is appended so its dial escapes the tunnel (no routing loop).
    let excludes = cfg["inbounds"][0]["route_exclude_address"]
        .as_array()
        .unwrap();
    assert!(excludes.iter().any(|v| v == "192.168.0.0/16"));
    assert!(excludes.iter().any(|v| v == "1.2.3.4/32"));
}

#[test]
fn excludes_lan_without_resolved_ip() {
    let l = VlessLink::parse(SAMPLE).unwrap();
    let cfg = to_value(&l.to_singbox_config("tun-vless", None, &[]));
    assert_eq!(cfg["outbounds"][0]["server"], "po.superbhost.xyz");
    // Even without a pre-resolved server IP, the LAN stays carved out.
    let excludes = cfg["inbounds"][0]["route_exclude_address"]
        .as_array()
        .unwrap();
    assert!(excludes.iter().any(|v| v == "192.168.0.0/16"));
    // No server IP means no /32 host entry, only the LAN ranges.
    assert!(!excludes
        .iter()
        .any(|v| v.as_str().unwrap().ends_with("/32")));
}

#[test]
fn bypass_processes_route_direct() {
    let l = VlessLink::parse(SAMPLE).unwrap();
    let bypass = vec!["steam".to_string(), "steamwebhelper".to_string()];
    let cfg = to_value(&l.to_singbox_config("tun-vless", Some("1.2.3.4"), &bypass));
    let rules = cfg["route"]["rules"].as_array().unwrap();
    let rule = rules
        .iter()
        .find(|r| r.get("process_name").is_some())
        .expect("bypass rule present");
    assert_eq!(
        rule["process_name"],
        Value::Array(vec![Value::from("steam"), Value::from("steamwebhelper")])
    );
    assert_eq!(rule["outbound"], "direct");
    // Everything else still goes to the proxy.
    assert_eq!(cfg["route"]["final"], "proxy");

    // No rule at all when the list is empty.
    let cfg = to_value(&l.to_singbox_config("tun-vless", Some("1.2.3.4"), &[]));
    let rules = cfg["route"]["rules"].as_array().unwrap();
    assert!(rules.iter().all(|r| r.get("process_name").is_none()));
}

#[test]
fn rejects_non_vless() {
    assert!(VlessLink::parse("https://example.com").is_err());
}

#[test]
fn parses_ipv6_host() {
    let l = VlessLink::parse("vless://uuid@[2001:db8::1]:8443?type=tcp").unwrap();
    assert_eq!(l.host, "2001:db8::1");
    assert_eq!(l.port, 8443);
}

#[test]
fn error_messages_name_the_problem() {
    assert_eq!(VlessLink::parse("https://example.com").unwrap_err(), "not a vless:// link");
    assert_eq!(
        VlessLink::parse("vless://host:443").unwrap_err(),
        "missing '@' separating uuid from host"
    );
    assert_eq!(VlessLink::parse("vless://@host:443").unwrap_err(), "empty uuid");
    assert_eq!(
        VlessLink::parse("vless://u@[::1:443").unwrap_err(),
        "unterminated IPv6 literal"
    );
    assert_eq!(
        VlessLink::parse("vless://u@[::1]443").unwrap_err(),
        "missing port after IPv6 host"
    );
    assert_eq!(VlessLink::parse("vless://u@host").unwrap_err(), "missing ':port'");
    assert_eq!(VlessLink::parse("vless://u@:443").unwrap_err(), "empty host");
    assert_eq!(
        VlessLink::parse("vless://u@host:99999").unwrap_err(),
        "invalid port: 99999"
    );
    assert_eq!(
        VlessLink::parse("vless://u@host:-1").unwrap_err(),
        "invalid port: -1"
    );
    assert_eq!(VlessLink::parse("vless://u@host:").unwrap_err(), "invalid port: ");
}

#[test]
fn port_grammar_matches_u16_parsing() {
    assert_eq!(VlessLink::parse("vless://u@h:+80").unwrap().port, 80);
    assert_eq!(VlessLink::parse("vless://u@h:65535").unwrap().port, 65535);
    assert_eq!(VlessLink::parse("vless://u@h:0008").unwrap().port, 8);
    assert!(VlessLink::parse("vless://u@h:65536").is_err());
    assert!(VlessLink::parse("vless://u@h:+").is_err());
    assert!(VlessLink::parse("vless://u@h:8a").is_err());
}

#[test]
fn host_is_split_at_the_last_colon() {
    let l = VlessLink::parse("vless://u@a:b:8080").unwrap();
    assert_eq!(l.host, "a:b");
    assert_eq!(l.port, 8080);
}

#[test]
fn surrounding_whitespace_is_ignored() {
    let a = VlessLink::parse(&format!(" \t{SAMPLE}\n\u{3000}")).unwrap();
    let b = VlessLink::parse(SAMPLE).unwrap();
    assert_eq!(a, b);
}

#[test]
fn defaults_when_query_is_missing_or_empty() {
    let l = VlessLink::parse("vless://u@h:1").unwrap();
    assert_eq!(l.transport, "tcp");
    assert_eq!(l.security, "none");
    assert_eq!(l.label, None);
    assert_eq!(l.sni, None);
    let l = VlessLink::parse("vless://u@h:1?type=&security=&sni=").unwrap();
    assert_eq!(l.transport, "tcp");
    assert_eq!(l.security, "none");
    assert_eq!(l.sni, None);
}

#[test]
fn later_query_value_wins() {
    let l = VlessLink::parse("vless://u@h:1?sni=a&sni=b").unwrap();
    assert_eq!(l.sni.as_deref(), Some("b"));
    // A later empty value hides an earlier one.
    let l = VlessLink::parse("vless://u@h:1?sni=a&sni=").unwrap();
    assert_eq!(l.sni, None);
    // Bare keys and empty segments are fine.
    let l = VlessLink::parse("vless://u@h:1?&&flow&fp=chrome&").unwrap();
    assert_eq!(l.flow, None);
    assert_eq!(l.fingerprint.as_deref(), Some("chrome"));
}

#[test]
fn percent_escapes_are_decoded() {
    let l = VlessLink::parse("vless://u@h:1?path=%2Fws%3fed%3D2048&pbk=a+b%2#My%20Label%C3%A9").unwrap();
    assert_eq!(l.path.as_deref(), Some("/ws?ed=2048"));
    // `+` is left untouched and a truncated escape is kept as it is.
    assert_eq!(l.public_key.as_deref(), Some("a+b%2"));
    assert_eq!(l.label.as_deref(), Some("My Label\u{e9}"));
    // Invalid UTF-8 after decoding becomes U+FFFD.
    let l = VlessLink::parse("vless://u@h:1#%FF").unwrap();
    assert_eq!(l.label.as_deref(), Some("\u{fffd}"));
    // Escaped keys are decoded too.
    let l = VlessLink::parse("vless://u@h:1?s%6Ei=x").unwrap();
    assert_eq!(l.sni.as_deref(), Some("x"));
}

#[test]
fn fragment_ends_the_query() {
    let l = VlessLink::parse("vless://u@h:1#label?sni=x").unwrap();
    assert_eq!(l.label.as_deref(), Some("label?sni=x"));
    assert_eq!(l.sni, None);
}

#[test]
fn websocket_transport_block() {
    let l = VlessLink::parse("vless://u@h:443?type=ws&security=tls&path=%2Fws&host=cdn.example&alpn=h2,%20http/1.1,,").unwrap();
    let out = to_value(&l.outbound());
    assert_eq!(out["transport"]["type"], "ws");
    assert_eq!(out["transport"]["path"], "/ws");
    assert_eq!(out["transport"]["headers"]["Host"], "cdn.example");
    assert_eq!(out["tls"]["enabled"], true);
    // Without an sni the host is the server name.
    assert_eq!(out["tls"]["server_name"], "h");
    assert!(out["tls"].get("reality").is_none());
    assert_eq!(
        out["tls"]["alpn"],
        Value::Array(vec![Value::from("h2"), Value::from("http/1.1")])
    );
}

#[test]
fn grpc_transport_block_and_plain_security() {
    let l = VlessLink::parse("vless://u@h:443?type=grpc&serviceName=svc").unwrap();
    let out = to_value(&l.outbound());
    assert_eq!(out["transport"]["type"], "grpc");
    assert_eq!(out["transport"]["service_name"], "svc");
    assert!(out.get("tls").is_none());
    assert!(out.get("flow").is_none());
    assert_eq!(out["packet_encoding"], "xudp");
    assert_eq!(out["tag"], "proxy");
    // Unknown transports are raw TCP: no transport block.
    let l = VlessLink::parse("vless://u@h:443?type=quic").unwrap();
    assert!(to_value(&l.outbound()).get("transport").is_none());
}

#[test]
fn ipv6_server_gets_a_128_host_route() {
    let l = VlessLink::parse(SAMPLE).unwrap();
    let cfg = to_value(&l.to_singbox_config("tun-vless", Some("2001:db8::1"), &[]));
    let excludes = cfg["inbounds"][0]["route_exclude_address"].as_array().unwrap();
    assert_eq!(excludes.len(), 7);
    assert_eq!(excludes[6], "2001:db8::1/128");
    assert_eq!(cfg["outbounds"][0]["server"], "2001:db8::1");
    assert_eq!(cfg["outbounds"][1]["type"], "direct");
    assert_eq!(cfg["dns"]["servers"][0]["detour"], "proxy");
    assert_eq!(cfg["inbounds"][0]["mtu"], 1400);
    assert_eq!(cfg["inbounds"][0]["stack"], "gvisor");
    assert_eq!(cfg["route"]["default_domain_resolver"], "local");
}

#[test]
fn socks_test_config_has_no_tun() {
    let l = VlessLink::parse(SAMPLE).unwrap();
    let cfg = to_value(&l.to_socks_test_config(1080));
    assert_eq!(cfg["inbounds"][0]["type"], "mixed");
    assert_eq!(cfg["inbounds"][0]["listen"], "127.0.0.1");
    assert_eq!(cfg["inbounds"][0]["listen_port"], 1080);
    assert_eq!(cfg["outbounds"][0]["server"], "po.superbhost.xyz");
    assert_eq!(cfg["outbounds"][1]["tag"], "direct");
    assert_eq!(cfg["route"]["final"], "proxy");
    assert_eq!(cfg["log"]["level"], "info");
}

#[test]
fn port_parsing_agrees_with_std() {
    for p in ["0", "1", "443", "+443", "-443", "++1", "+", "", "65535", "65536", "007", "1_0", " 1", "1 ", "4294967296", "99999999999999999999", "١"] {
        let link = format!("vless://u@h:{p}#x");
        let ours = VlessLink::parse(&link).ok().map(|l| l.port);
        assert_eq!(ours, p.parse::<u16>().ok(), "port text {p:?}");
    }
}

#[test]
fn host_and_port_round_trip() {
    for p in [0u16, 1, 80, 443, 8443, 65535] {
        for h in ["h", "po.superbhost.xyz", "2001:db8::1", "1.2.3.4"] {
            let l = VlessLink::parse(&format!("vless://u@{h}:{p}")).unwrap();
            assert_eq!((l.host.as_str(), l.port), (h, p));
        }
        for g in ["::1", "2001:db8::1", "fe80::1"] {
            let l = VlessLink::parse(&format!("vless://u@[{g}]:{p}")).unwrap();
            assert_eq!((l.host.as_str(), l.port), (g, p));
        }
    }
}

fn decode(s: &str) -> String {
    let v: Vec<char> = s.chars().collect();
    percent_decode(&v, 0, v.len())
}

#[test]
fn percent_encoding_round_trips() {
    for s in ["", "RedShieldVPN Poland", "a+b/c?d=e&f#g", "ключ", "😀%", "\u{0}x"] {
        let upper: String = s.bytes().map(|b| format!("%{:02X}", b)).collect();
        let lower: String = s.bytes().map(|b| format!("%{:02x}", b)).collect();
        assert_eq!(decode(&upper), s);
        assert_eq!(decode(&lower), s);
    }
}

#[test]
fn text_without_percent_is_unchanged() {
    for s in ["", "plain", "a+b", "ключ+ü", "😀 x"] {
        assert_eq!(decode(s), s);
    }
    assert_eq!(decode("%41%2"), "A%2");
}

#[test]
fn split_host_port_round_trips() {
    for p in [0u16, 443, 65535] {
        for h in ["h", "2001:db8::1", "a:b:c"] {
            assert_eq!(split_host_port(&format!("{h}:{p}")), Ok((h.to_string(), p)));
        }
        for g in ["::1", "2001:db8::1", ""] {
            assert_eq!(split_host_port(&format!("[{g}]:{p}")), Ok((g.to_string(), p)));
        }
    }
    assert_eq!(split_host_port("2001:db8::1:443"), Ok(("2001:db8::1".to_string(), 443)));
    assert_eq!(split_host_port(":443"), Err("empty host".to_string()));
    assert_eq!(split_host_port("[::1"), Err("unterminated IPv6 literal".to_string()));
    assert_eq!(split_host_port("[::1]443"), Err("missing port after IPv6 host".to_string()));
    assert_eq!(split_host_port("h"), Err("missing ':port'".to_string()));
    assert_eq!(split_host_port("h:65536"), Err("invalid port: 65536".to_string()));
}

#[test]
fn pretty_json_text() {
    let doc = JsonValue::Object(vec![
        ("b".to_string(), JsonValue::Number(1)),
        (
            "a".to_string(),
            JsonValue::Array(vec![JsonValue::Bool(true), JsonValue::String("x\"y".to_string())]),
        ),
    ]);
    assert_eq!(
        doc.to_pretty_string(),
        "{\n  \"a\": [\n    true,\n    \"x\\\"y\"\n  ],\n  \"b\": 1\n}"
    );
    assert_eq!(JsonValue::Array(vec![]).to_pretty_string(), "[]");
}

#[test]
fn config_text_is_the_config_as_json() {
    let l = VlessLink::parse(SAMPLE).unwrap();
    let bypass = vec!["steam".to_string()];
    let text = l.config_text("tun-vless", Some("1.2.3.4"), &bypass);
    let cfg = l.to_singbox_config("tun-vless", Some("1.2.3.4"), &bypass);
    assert_eq!(text, cfg.to_pretty_string());
    let v: Value = serde_json::from_str(&text).unwrap();
    assert_eq!(v["outbounds"][0]["server"], "1.2.3.4");
    assert_eq!(v["inbounds"][0]["interface_name"], "tun-vless");
    assert_eq!(v["route"]["rules"][2]["process_name"][0], "steam");
}
