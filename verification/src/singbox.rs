//! Generation of sing-box configurations (sing-box >= 1.12 schema) for a
//! parsed VLESS link.
//!
//! A VLESS connection is terminated by a userspace core (sing-box) running a
//! TUN inbound, so it behaves like a full-tunnel VPN: all traffic is routed
//! through it.

use vstd::prelude::*;

use crate::json::{
    entries_of, field, items_of, jstr, jstrs, keys_of, lemma_field_lookup, lemma_with_field,
    lookup_entry, pretty_json_text, push_entry,
    push_item, set_entry, with_field, Json, JsonValue,
};
use crate::text::{
    chars_of, find_first, lemma_nonempty_trimmed_concat, lemma_split_concat, nonempty_trimmed,
    split_on, split_trimmed, text_is, texts_of, trimmed,
};
use crate::vless::{SpecVlessLink, VlessLink};

verus! {

/// An entry `key: value` when the value is present, nothing otherwise.
pub open spec fn opt_entry(key: Seq<char>, value: Option<Seq<char>>) -> Seq<(Seq<char>, Json)> {
    match value {
        Some(v) => seq![(key, jstr(v))],
        None => seq![],
    }
}

/// The ALPN protocols of a comma-separated list: each trimmed, empty ones
/// dropped.
pub open spec fn alpn_list(alpn: Seq<char>) -> Seq<Seq<char>> {
    nonempty_trimmed(split_on(alpn, ','))
}

/// The Reality block: its public key and short id when the link gives them.
pub open spec fn spec_reality(l: SpecVlessLink) -> Json {
    Json::Object(
        seq![("enabled"@, Json::Bool(true))] + opt_entry("public_key"@, l.public_key) + opt_entry(
            "short_id"@,
            l.short_id,
        ),
    )
}

/// The TLS block of the outbound: SNI (the host when the link names none),
/// the uTLS fingerprint, Reality, and the ALPN list, each when present.
pub open spec fn spec_tls(l: SpecVlessLink) -> Json {
    Json::Object(
        seq![
            ("enabled"@, Json::Bool(true)),
            (
                "server_name"@,
                jstr(
                    match l.sni {
                        Some(s) => s,
                        None => l.host,
                    },
                ),
            ),
        ] + match l.fingerprint {
            Some(fp) => seq![
                (
                    "utls"@,
                    Json::Object(
                        seq![("enabled"@, Json::Bool(true)), ("fingerprint"@, jstr(fp))],
                    ),
                ),
            ],
            None => seq![],
        } + if l.security == "reality"@ {
            seq![("reality"@, spec_reality(l))]
        } else {
            seq![]
        } + match l.alpn {
            Some(a) => seq![("alpn"@, jstrs(alpn_list(a)))],
            None => seq![],
        },
    )
}

/// The transport entry of the outbound: a `ws` or `grpc` block, or nothing
/// for raw TCP (`tcp` and any other transport).
pub open spec fn spec_transport(l: SpecVlessLink) -> Seq<(Seq<char>, Json)> {
    if l.transport == "ws"@ {
        seq![
            (
                "transport"@,
                Json::Object(
                    seq![("type"@, jstr("ws"@))] + opt_entry("path"@, l.path) + match l.host_header {
                        Some(h) => seq![("headers"@, Json::Object(seq![("Host"@, jstr(h))]))],
                        None => seq![],
                    },
                ),
            ),
        ]
    } else if l.transport == "grpc"@ {
        seq![
            (
                "transport"@,
                Json::Object(
                    seq![("type"@, jstr("grpc"@))] + opt_entry("service_name"@, l.service_name),
                ),
            ),
        ]
    } else {
        seq![]
    }
}

/// The VLESS proxy outbound (tagged `proxy`); TLS unless the security is
/// `none`.
pub open spec fn spec_outbound(l: SpecVlessLink) -> Json {
    Json::Object(
        seq![
            ("type"@, jstr("vless"@)),
            ("tag"@, jstr("proxy"@)),
            ("server"@, jstr(l.host)),
            ("server_port"@, Json::Number(l.port as u64)),
            ("uuid"@, jstr(l.uuid)),
            ("packet_encoding"@, jstr("xudp"@)),
        ] + opt_entry("flow"@, l.flow) + if l.security != "none"@ {
            seq![("tls"@, spec_tls(l))]
        } else {
            seq![]
        } + spec_transport(l),
    )
}

/// Appends `key: value` when the value is present.
fn push_opt(entries: &mut Vec<(String, JsonValue)>, key: &str, value: &Option<String>)
    ensures
        entries_of(final(entries)@) == entries_of(old(entries)@) + opt_entry(
            key@,
            crate::vless::opt_text(*value),
        ),
{
    let ghost before = entries_of(entries@);
    match value {
        Some(v) => {
            push_entry(entries, key, JsonValue::String(v.clone()));
            assert(entries_of(entries@) =~= before + opt_entry(
                key@,
                crate::vless::opt_text(*value),
            ));
        },
        None => {
            assert(entries_of(entries@) =~= before + opt_entry(
                key@,
                crate::vless::opt_text(*value),
            ));
        },
    }
}

impl VlessLink {
    fn reality(&self) -> (j: JsonValue)
        ensures
            j@ == spec_reality(self@),
    {
        let mut e: Vec<(String, JsonValue)> = Vec::new();
        push_entry(&mut e, "enabled", JsonValue::Bool(true));
        assert(entries_of(e@) =~= seq![("enabled"@, Json::Bool(true))]);
        push_opt(&mut e, "public_key", &self.public_key);
        push_opt(&mut e, "short_id", &self.short_id);
        JsonValue::object(e)
    }

    fn tls(&self) -> (j: JsonValue)
        ensures
            j@ == spec_tls(self@),
    {
        let ghost l = self@;
        let mut e: Vec<(String, JsonValue)> = Vec::new();
        push_entry(&mut e, "enabled", JsonValue::Bool(true));
        let server_name = match &self.sni {
            Some(s) => s.clone(),
            None => self.host.clone(),
        };
        push_entry(&mut e, "server_name", JsonValue::String(server_name));
        assert(entries_of(e@) =~= seq![
            ("enabled"@, Json::Bool(true)),
            (
                "server_name"@,
                jstr(
                    match l.sni {
                        Some(s) => s,
                        None => l.host,
                    },
                ),
            ),
        ]);
        let ghost mut expected = entries_of(e@);
        if let Some(fp) = &self.fingerprint {
            let mut u: Vec<(String, JsonValue)> = Vec::new();
            push_entry(&mut u, "enabled", JsonValue::Bool(true));
            push_entry(&mut u, "fingerprint", JsonValue::String(fp.clone()));
            assert(entries_of(u@) =~= seq![
                ("enabled"@, Json::Bool(true)),
                ("fingerprint"@, jstr(fp@)),
            ]);
            push_entry(&mut e, "utls", JsonValue::object(u));
        }
        assert(entries_of(e@) =~= expected + match l.fingerprint {
            Some(fp) => seq![
                (
                    "utls"@,
                    Json::Object(
                        seq![("enabled"@, Json::Bool(true)), ("fingerprint"@, jstr(fp))],
                    ),
                ),
            ],
            None => seq![],
        });
        proof {
            expected = entries_of(e@);
        }
        if text_is(&self.security, "reality") {
            push_entry(&mut e, "reality", self.reality());
        }
        assert(entries_of(e@) =~= expected + if l.security == "reality"@ {
            seq![("reality"@, spec_reality(l))]
        } else {
            seq![]
        });
        proof {
            expected = entries_of(e@);
        }
        if let Some(alpn) = &self.alpn {
            let chars = chars_of(alpn.as_str());
            assert(chars@.subrange(0, chars@.len() as int) =~= alpn@);
            let list = split_trimmed(&chars, 0, chars.len(), ',');
            push_entry(&mut e, "alpn", JsonValue::strings(list.as_slice()));
        }
        assert(entries_of(e@) =~= expected + match l.alpn {
            Some(a) => seq![("alpn"@, jstrs(alpn_list(a)))],
            None => seq![],
        });
        JsonValue::object(e)
    }

    fn push_transport(&self, e: &mut Vec<(String, JsonValue)>)
        ensures
            entries_of(final(e)@) == entries_of(old(e)@) + spec_transport(self@),
    {
        let ghost before = entries_of(e@);
        if text_is(&self.transport, "ws") {
            let mut t: Vec<(String, JsonValue)> = Vec::new();
            push_entry(&mut t, "type", JsonValue::text("ws"));
            assert(entries_of(t@) =~= seq![("type"@, jstr("ws"@))]);
            push_opt(&mut t, "path", &self.path);
            let ghost mid = entries_of(t@);
            if let Some(h) = &self.host_header {
                let mut hd: Vec<(String, JsonValue)> = Vec::new();
                push_entry(&mut hd, "Host", JsonValue::String(h.clone()));
                assert(entries_of(hd@) =~= seq![("Host"@, jstr(h@))]);
                push_entry(&mut t, "headers", JsonValue::object(hd));
            }
            assert(entries_of(t@) =~= mid + match self@.host_header {
                Some(h) => seq![("headers"@, Json::Object(seq![("Host"@, jstr(h))]))],
                None => seq![],
            });
            push_entry(e, "transport", JsonValue::object(t));
        } else if text_is(&self.transport, "grpc") {
            let mut t: Vec<(String, JsonValue)> = Vec::new();
            push_entry(&mut t, "type", JsonValue::text("grpc"));
            assert(entries_of(t@) =~= seq![("type"@, jstr("grpc"@))]);
            push_opt(&mut t, "service_name", &self.service_name);
            push_entry(e, "transport", JsonValue::object(t));
        }
        assert(entries_of(e@) =~= before + spec_transport(self@));
    }

    /// Build the VLESS proxy outbound object (tagged `proxy`).
    pub fn outbound(&self) -> (j: JsonValue)
        ensures
            j@ == spec_outbound(self@),
    {
        JsonValue::object(self.outbound_entries())
    }

    fn outbound_entries(&self) -> (e: Vec<(String, JsonValue)>)
        ensures
            Json::Object(entries_of(e@)) == spec_outbound(self@),
    {
        let ghost l = self@;
        let mut e: Vec<(String, JsonValue)> = Vec::new();
        push_entry(&mut e, "type", JsonValue::text("vless"));
        push_entry(&mut e, "tag", JsonValue::text("proxy"));
        push_entry(&mut e, "server", JsonValue::String(self.host.clone()));
        push_entry(&mut e, "server_port", JsonValue::Number(self.port as u64));
        push_entry(&mut e, "uuid", JsonValue::String(self.uuid.clone()));
        push_entry(&mut e, "packet_encoding", JsonValue::text("xudp"));
        assert(entries_of(e@) =~= seq![
            ("type"@, jstr("vless"@)),
            ("tag"@, jstr("proxy"@)),
            ("server"@, jstr(l.host)),
            ("server_port"@, Json::Number(l.port as u64)),
            ("uuid"@, jstr(l.uuid)),
            ("packet_encoding"@, jstr("xudp"@)),
        ]);
        push_opt(&mut e, "flow", &self.flow);
        let ghost mid = entries_of(e@);
        if !text_is(&self.security, "none") {
            push_entry(&mut e, "tls", self.tls());
        }
        assert(entries_of(e@) =~= mid + if l.security != "none"@ {
            seq![("tls"@, spec_tls(l))]
        } else {
            seq![]
        });
        self.push_transport(&mut e);
        e
    }
}

/// Destinations kept out of the TUN so the LAN stays reachable while
/// connected: RFC1918 private ranges plus IPv4/IPv6 link-local.
pub open spec fn local_excludes() -> Seq<Seq<char>> {
    seq![
        "10.0.0.0/8"@,
        "172.16.0.0/12"@,
        "192.168.0.0/16"@,
        "169.254.0.0/16"@,
        "fe80::/10"@,
        "fc00::/7"@,
    ]
}

/// The single-host route for an address: `/128` for IPv6 (it has a `:`),
/// `/32` otherwise.
pub open spec fn host_route(ip: Seq<char>) -> Seq<char> {
    ip + if ip.contains(':') {
        "/128"@
    } else {
        "/32"@
    }
}

/// What the TUN leaves out: the local ranges, and the server's own address
/// when it was resolved beforehand, so the proxy's connection to it escapes
/// the tunnel.
pub open spec fn route_excludes(server_ip: Option<Seq<char>>) -> Seq<Seq<char>> {
    local_excludes() + match server_ip {
        Some(ip) => seq![host_route(ip)],
        None => seq![],
    }
}

/// The TUN inbound named `tun_iface`.
pub open spec fn spec_tun(tun_iface: Seq<char>, server_ip: Option<Seq<char>>) -> Json {
    Json::Object(
        seq![
            ("type"@, jstr("tun"@)),
            ("tag"@, jstr("tun-in"@)),
            ("interface_name"@, jstr(tun_iface)),
            ("address"@, jstrs(seq!["172.19.0.1/30"@, "fdfe:dcba:9876::1/126"@])),
            ("mtu"@, Json::Number(1400)),
            ("auto_route"@, Json::Bool(true)),
            ("strict_route"@, Json::Bool(false)),
            ("stack"@, jstr("gvisor"@)),
            ("route_exclude_address"@, jstrs(route_excludes(server_ip))),
        ],
    )
}

/// The proxy outbound, dialing the pre-resolved address when there is one
/// (the TLS server name still comes from the link).
pub open spec fn spec_proxy(l: SpecVlessLink, server_ip: Option<Seq<char>>) -> Json {
    match (server_ip, spec_outbound(l)) {
        (Some(ip), Json::Object(e)) => Json::Object(with_field(e, "server"@, jstr(ip))),
        _ => spec_outbound(l),
    }
}

/// The route rules: sniff, hijack DNS, and send the bypassed processes
/// direct (no such rule when there are none).
pub open spec fn spec_rules(bypass: Seq<Seq<char>>) -> Seq<Json> {
    seq![
        Json::Object(seq![("action"@, jstr("sniff"@))]),
        Json::Object(seq![("protocol"@, jstr("dns"@)), ("action"@, jstr("hijack-dns"@))]),
    ] + if bypass.len() > 0 {
        seq![Json::Object(seq![("process_name"@, jstrs(bypass)), ("outbound"@, jstr("direct"@))])]
    } else {
        seq![]
    }
}

/// The `direct` outbound.
pub open spec fn spec_direct() -> Json {
    Json::Object(seq![("type"@, jstr("direct"@)), ("tag"@, jstr("direct"@))])
}

/// The full TUN configuration: everything goes through the proxy except
/// the bypassed processes.
pub open spec fn spec_singbox_config(
    l: SpecVlessLink,
    tun_iface: Seq<char>,
    server_ip: Option<Seq<char>>,
    bypass: Seq<Seq<char>>,
) -> Json {
    Json::Object(
        seq![
            (
                "log"@,
                Json::Object(seq![("level"@, jstr("warn"@)), ("timestamp"@, Json::Bool(true))]),
            ),
            (
                "dns"@,
                Json::Object(
                    seq![
                        (
                            "servers"@,
                            Json::Array(
                                seq![
                                    Json::Object(
                                        seq![
                                            ("type"@, jstr("https"@)),
                                            ("tag"@, jstr("remote"@)),
                                            ("server"@, jstr("1.1.1.1"@)),
                                            ("detour"@, jstr("proxy"@)),
                                        ],
                                    ),
                                    Json::Object(
                                        seq![("type"@, jstr("local"@)), ("tag"@, jstr("local"@))],
                                    ),
                                ],
                            ),
                        ),
                        ("strategy"@, jstr("prefer_ipv4"@)),
                    ],
                ),
            ),
            ("inbounds"@, Json::Array(seq![spec_tun(tun_iface, server_ip)])),
            ("outbounds"@, Json::Array(seq![spec_proxy(l, server_ip), spec_direct()])),
            (
                "route"@,
                Json::Object(
                    seq![
                        ("rules"@, Json::Array(spec_rules(bypass))),
                        ("auto_detect_interface"@, Json::Bool(true)),
                        ("default_domain_resolver"@, jstr("local"@)),
                        ("final"@, jstr("proxy"@)),
                    ],
                ),
            ),
        ],
    )
}

/// The SOCKS-only test configuration: no TUN, no routing changes.
pub open spec fn spec_socks_test_config(l: SpecVlessLink, socks_port: u16) -> Json {
    Json::Object(
        seq![
            (
                "log"@,
                Json::Object(seq![("level"@, jstr("info"@)), ("timestamp"@, Json::Bool(true))]),
            ),
            (
                "inbounds"@,
                Json::Array(
                    seq![
                        Json::Object(
                            seq![
                                ("type"@, jstr("mixed"@)),
                                ("tag"@, jstr("in"@)),
                                ("listen"@, jstr("127.0.0.1"@)),
                                ("listen_port"@, Json::Number(socks_port as u64)),
                            ],
                        ),
                    ],
                ),
            ),
            ("outbounds"@, Json::Array(seq![spec_outbound(l), spec_direct()])),
            ("route"@, Json::Object(seq![("final"@, jstr("proxy"@))])),
        ],
    )
}

/// The text of an optional string slice.
pub open spec fn opt_str_text(o: Option<&str>) -> Option<Seq<char>> {
    match o {
        Some(s) => Some(s@),
        None => None,
    }
}

/// The local ranges, as strings.
fn local_exclude_list() -> (v: Vec<String>)
    ensures
        texts_of(v@) == local_excludes(),
{
    let mut v: Vec<String> = Vec::new();
    v.push("10.0.0.0/8".to_string());
    v.push("172.16.0.0/12".to_string());
    v.push("192.168.0.0/16".to_string());
    v.push("169.254.0.0/16".to_string());
    v.push("fe80::/10".to_string());
    v.push("fc00::/7".to_string());
    assert(texts_of(v@) =~= local_excludes());
    v
}

/// The single-host route for `ip`.
fn host_route_of(ip: &str) -> (r: String)
    ensures
        r@ == host_route(ip@),
{
    let chars = chars_of(ip);
    assert(chars@.subrange(0, chars@.len() as int) =~= ip@);
    let has_colon = find_first(&chars, 0, chars.len(), ':').is_some();
    proof {
        ip@.index_of_first_ensures(':');
    }
    let mut r = ip.to_string();
    if has_colon {
        r.append("/128");
    } else {
        r.append("/32");
    }
    r
}

/// The `direct` outbound.
fn direct_outbound() -> (j: JsonValue)
    ensures
        j@ == spec_direct(),
{
    let mut e: Vec<(String, JsonValue)> = Vec::new();
    push_entry(&mut e, "type", JsonValue::text("direct"));
    push_entry(&mut e, "tag", JsonValue::text("direct"));
    assert(entries_of(e@) =~= seq![("type"@, jstr("direct"@)), ("tag"@, jstr("direct"@))]);
    JsonValue::object(e)
}

/// The TUN inbound.
fn tun_inbound(tun_iface: &str, server_ip: Option<&str>) -> (j: JsonValue)
    ensures
        j@ == spec_tun(tun_iface@, opt_str_text(server_ip)),
{
    let mut addresses: Vec<String> = Vec::new();
    addresses.push("172.19.0.1/30".to_string());
    addresses.push("fdfe:dcba:9876::1/126".to_string());
    assert(texts_of(addresses@) =~= seq!["172.19.0.1/30"@, "fdfe:dcba:9876::1/126"@]);
    let mut exclude = local_exclude_list();
    let ghost local = texts_of(exclude@);
    if let Some(ip) = server_ip {
        exclude.push(host_route_of(ip));
    }
    assert(texts_of(exclude@) =~= route_excludes(opt_str_text(server_ip)));
    let mut e: Vec<(String, JsonValue)> = Vec::new();
    push_entry(&mut e, "type", JsonValue::text("tun"));
    push_entry(&mut e, "tag", JsonValue::text("tun-in"));
    push_entry(&mut e, "interface_name", JsonValue::text(tun_iface));
    push_entry(&mut e, "address", JsonValue::strings(addresses.as_slice()));
    push_entry(&mut e, "mtu", JsonValue::Number(1400));
    push_entry(&mut e, "auto_route", JsonValue::Bool(true));
    push_entry(&mut e, "strict_route", JsonValue::Bool(false));
    push_entry(&mut e, "stack", JsonValue::text("gvisor"));
    push_entry(&mut e, "route_exclude_address", JsonValue::strings(exclude.as_slice()));
    assert(entries_of(e@) =~= seq![
        ("type"@, jstr("tun"@)),
        ("tag"@, jstr("tun-in"@)),
        ("interface_name"@, jstr(tun_iface@)),
        ("address"@, jstrs(seq!["172.19.0.1/30"@, "fdfe:dcba:9876::1/126"@])),
        ("mtu"@, Json::Number(1400)),
        ("auto_route"@, Json::Bool(true)),
        ("strict_route"@, Json::Bool(false)),
        ("stack"@, jstr("gvisor"@)),
        ("route_exclude_address"@, jstrs(route_excludes(opt_str_text(server_ip)))),
    ]);
    JsonValue::object(e)
}

/// The route rules.
fn route_rules(bypass_processes: &[String]) -> (j: JsonValue)
    ensures
        j@ == Json::Array(spec_rules(texts_of(bypass_processes@))),
{
    let mut rules: Vec<JsonValue> = Vec::new();
    let mut sniff: Vec<(String, JsonValue)> = Vec::new();
    push_entry(&mut sniff, "action", JsonValue::text("sniff"));
    assert(entries_of(sniff@) =~= seq![("action"@, jstr("sniff"@))]);
    push_item(&mut rules, JsonValue::object(sniff));
    let mut dns: Vec<(String, JsonValue)> = Vec::new();
    push_entry(&mut dns, "protocol", JsonValue::text("dns"));
    push_entry(&mut dns, "action", JsonValue::text("hijack-dns"));
    assert(entries_of(dns@) =~= seq![("protocol"@, jstr("dns"@)), ("action"@, jstr("hijack-dns"@))]);
    push_item(&mut rules, JsonValue::object(dns));
    let ghost bypass = texts_of(bypass_processes@);
    if bypass_processes.len() > 0 {
        let mut direct: Vec<(String, JsonValue)> = Vec::new();
        push_entry(&mut direct, "process_name", JsonValue::strings(bypass_processes));
        push_entry(&mut direct, "outbound", JsonValue::text("direct"));
        assert(entries_of(direct@) =~= seq![
            ("process_name"@, jstrs(bypass)),
            ("outbound"@, jstr("direct"@)),
        ]);
        push_item(&mut rules, JsonValue::object(direct));
    }
    assert(items_of(rules@) =~= spec_rules(bypass));
    JsonValue::array(rules)
}

/// The DNS block.
fn dns_block() -> (j: JsonValue)
    ensures
        j@ == Json::Object(
            seq![
                (
                    "servers"@,
                    Json::Array(
                        seq![
                            Json::Object(
                                seq![
                                    ("type"@, jstr("https"@)),
                                    ("tag"@, jstr("remote"@)),
                                    ("server"@, jstr("1.1.1.1"@)),
                                    ("detour"@, jstr("proxy"@)),
                                ],
                            ),
                            Json::Object(seq![("type"@, jstr("local"@)), ("tag"@, jstr("local"@))]),
                        ],
                    ),
                ),
                ("strategy"@, jstr("prefer_ipv4"@)),
            ],
        ),
{
    let mut remote: Vec<(String, JsonValue)> = Vec::new();
    push_entry(&mut remote, "type", JsonValue::text("https"));
    push_entry(&mut remote, "tag", JsonValue::text("remote"));
    push_entry(&mut remote, "server", JsonValue::text("1.1.1.1"));
    push_entry(&mut remote, "detour", JsonValue::text("proxy"));
    assert(entries_of(remote@) =~= seq![
        ("type"@, jstr("https"@)),
        ("tag"@, jstr("remote"@)),
        ("server"@, jstr("1.1.1.1"@)),
        ("detour"@, jstr("proxy"@)),
    ]);
    let mut local: Vec<(String, JsonValue)> = Vec::new();
    push_entry(&mut local, "type", JsonValue::text("local"));
    push_entry(&mut local, "tag", JsonValue::text("local"));
    assert(entries_of(local@) =~= seq![("type"@, jstr("local"@)), ("tag"@, jstr("local"@))]);
    let mut servers: Vec<JsonValue> = Vec::new();
    push_item(&mut servers, JsonValue::object(remote));
    push_item(&mut servers, JsonValue::object(local));
    let ghost sv = items_of(servers@);
    let mut e: Vec<(String, JsonValue)> = Vec::new();
    push_entry(&mut e, "servers", JsonValue::array(servers));
    push_entry(&mut e, "strategy", JsonValue::text("prefer_ipv4"));
    assert(sv =~= seq![
        Json::Object(
            seq![
                ("type"@, jstr("https"@)),
                ("tag"@, jstr("remote"@)),
                ("server"@, jstr("1.1.1.1"@)),
                ("detour"@, jstr("proxy"@)),
            ],
        ),
        Json::Object(seq![("type"@, jstr("local"@)), ("tag"@, jstr("local"@))]),
    ]);
    assert(entries_of(e@) =~= seq![
        ("servers"@, Json::Array(sv)),
        ("strategy"@, jstr("prefer_ipv4"@)),
    ]);
    JsonValue::object(e)
}

/// An object `{"level": level, "timestamp": true}`.
fn log_block(level: &str) -> (j: JsonValue)
    ensures
        j@ == Json::Object(seq![("level"@, jstr(level@)), ("timestamp"@, Json::Bool(true))]),
{
    let mut e: Vec<(String, JsonValue)> = Vec::new();
    push_entry(&mut e, "level", JsonValue::text(level));
    push_entry(&mut e, "timestamp", JsonValue::Bool(true));
    assert(entries_of(e@) =~= seq![("level"@, jstr(level@)), ("timestamp"@, Json::Bool(true))]);
    JsonValue::object(e)
}

impl VlessLink {
    /// A minimal SOCKS-only config (no TUN, no routing changes) for testing
    /// whether the VLESS connection itself works, isolated from TUN/routing.
    pub fn to_socks_test_config(&self, socks_port: u16) -> (j: JsonValue)
        ensures
            j@ == spec_socks_test_config(self@, socks_port),
    {
        let mut inbound: Vec<(String, JsonValue)> = Vec::new();
        push_entry(&mut inbound, "type", JsonValue::text("mixed"));
        push_entry(&mut inbound, "tag", JsonValue::text("in"));
        push_entry(&mut inbound, "listen", JsonValue::text("127.0.0.1"));
        push_entry(&mut inbound, "listen_port", JsonValue::Number(socks_port as u64));
        let ghost ib = entries_of(inbound@);
        assert(ib =~= seq![
            ("type"@, jstr("mixed"@)),
            ("tag"@, jstr("in"@)),
            ("listen"@, jstr("127.0.0.1"@)),
            ("listen_port"@, Json::Number(socks_port as u64)),
        ]);
        let mut inbounds: Vec<JsonValue> = Vec::new();
        push_item(&mut inbounds, JsonValue::object(inbound));
        let ghost ibs = items_of(inbounds@);
        assert(ibs =~= seq![Json::Object(ib)]);
        let mut outbounds: Vec<JsonValue> = Vec::new();
        push_item(&mut outbounds, self.outbound());
        push_item(&mut outbounds, direct_outbound());
        let ghost obs = items_of(outbounds@);
        assert(obs =~= seq![spec_outbound(self@), spec_direct()]);
        let mut route: Vec<(String, JsonValue)> = Vec::new();
        push_entry(&mut route, "final", JsonValue::text("proxy"));
        let ghost rt = entries_of(route@);
        assert(rt =~= seq![("final"@, jstr("proxy"@))]);
        let mut e: Vec<(String, JsonValue)> = Vec::new();
        push_entry(&mut e, "log", log_block("info"));
        push_entry(&mut e, "inbounds", JsonValue::array(inbounds));
        push_entry(&mut e, "outbounds", JsonValue::array(outbounds));
        push_entry(&mut e, "route", JsonValue::object(route));
        assert(entries_of(e@) =~= seq![
            (
                "log"@,
                Json::Object(seq![("level"@, jstr("info"@)), ("timestamp"@, Json::Bool(true))]),
            ),
            ("inbounds"@, Json::Array(ibs)),
            ("outbounds"@, Json::Array(obs)),
            ("route"@, Json::Object(rt)),
        ]);
        JsonValue::object(e)
    }

    /// Build a sing-box configuration (sing-box >= 1.12 schema) that exposes a
    /// TUN inbound named `tun_iface` and routes everything through this server.
    ///
    /// `server_ip`, when given, replaces the proxy `server` hostname with a
    /// pre-resolved IP and is excluded from the TUN: resolving the proxy
    /// hostname after the tunnel is up would deadlock against the tunnel's
    /// DNS hijack, and without the exclusion the server dial loops back into
    /// the tunnel.
    ///
    /// `bypass_processes` are executable names whose traffic is routed to the
    /// `direct` outbound instead of the proxy (split tunneling).
    pub fn to_singbox_config(
        &self,
        tun_iface: &str,
        server_ip: Option<&str>,
        bypass_processes: &[String],
    ) -> (j: JsonValue)
        ensures
            j@ == spec_singbox_config(
                self@,
                tun_iface@,
                opt_str_text(server_ip),
                texts_of(bypass_processes@),
            ),
    {
        let mut proxy_entries = self.outbound_entries();
        if let Some(ip) = server_ip {
            set_entry(&mut proxy_entries, "server", JsonValue::text(ip));
        }
        let proxy = JsonValue::object(proxy_entries);
        assert(proxy@ == spec_proxy(self@, opt_str_text(server_ip)));
        let mut inbounds: Vec<JsonValue> = Vec::new();
        push_item(&mut inbounds, tun_inbound(tun_iface, server_ip));
        let ghost ibs = items_of(inbounds@);
        assert(ibs =~= seq![spec_tun(tun_iface@, opt_str_text(server_ip))]);
        let mut outbounds: Vec<JsonValue> = Vec::new();
        push_item(&mut outbounds, proxy);
        push_item(&mut outbounds, direct_outbound());
        let ghost obs = items_of(outbounds@);
        assert(obs =~= seq![spec_proxy(self@, opt_str_text(server_ip)), spec_direct()]);
        let mut route: Vec<(String, JsonValue)> = Vec::new();
        push_entry(&mut route, "rules", route_rules(bypass_processes));
        push_entry(&mut route, "auto_detect_interface", JsonValue::Bool(true));
        push_entry(&mut route, "default_domain_resolver", JsonValue::text("local"));
        push_entry(&mut route, "final", JsonValue::text("proxy"));
        let ghost rt = entries_of(route@);
        assert(rt =~= seq![
            ("rules"@, Json::Array(spec_rules(texts_of(bypass_processes@)))),
            ("auto_detect_interface"@, Json::Bool(true)),
            ("default_domain_resolver"@, jstr("local"@)),
            ("final"@, jstr("proxy"@)),
        ]);
        let dns = dns_block();
        let ghost dv = dns@;
        let mut e: Vec<(String, JsonValue)> = Vec::new();
        push_entry(&mut e, "log", log_block("warn"));
        push_entry(&mut e, "dns", dns);
        push_entry(&mut e, "inbounds", JsonValue::array(inbounds));
        push_entry(&mut e, "outbounds", JsonValue::array(outbounds));
        push_entry(&mut e, "route", JsonValue::object(route));
        assert(entries_of(e@) =~= seq![
            (
                "log"@,
                Json::Object(seq![("level"@, jstr("warn"@)), ("timestamp"@, Json::Bool(true))]),
            ),
            ("dns"@, dv),
            ("inbounds"@, Json::Array(ibs)),
            ("outbounds"@, Json::Array(obs)),
            ("route"@, Json::Object(rt)),
        ]);
        JsonValue::object(e)
    }
}

impl VlessLink {
    /// The sing-box configuration of [`VlessLink::to_singbox_config`] as the
    /// pretty-printed JSON text that is written for sing-box to read.
    pub fn config_text(
        &self,
        tun_iface: &str,
        server_ip: Option<&str>,
        bypass_processes: &[String],
    ) -> (s: String)
        ensures
            s@ == pretty_json_text(
                spec_singbox_config(
                    self@,
                    tun_iface@,
                    opt_str_text(server_ip),
                    texts_of(bypass_processes@),
                ),
            ),
    {
        self.to_singbox_config(tun_iface, server_ip, bypass_processes).to_pretty_string()
    }
}

/// Whether `s` ends with `/32`, i.e. is an IPv4 single-host route.
pub open spec fn is_v4_host_route(s: Seq<char>) -> bool {
    s.len() >= 3 && s.skip(s.len() - 3) == "/32"@
}

/// The LAN ranges are always left out of the tunnel, whether or not the
/// server address was resolved; a resolved address is appended after them as
/// a single-host route, and without one there is no `/32` host entry at all.
pub proof fn lemma_route_excludes(server_ip: Option<Seq<char>>)
    ensures
        route_excludes(server_ip).take(6) == local_excludes(),
        route_excludes(server_ip).contains("192.168.0.0/16"@),
        server_ip matches Some(ip) ==> route_excludes(server_ip) == local_excludes().push(
            host_route(ip),
        ),
        server_ip is None ==> route_excludes(server_ip) == local_excludes(),
        server_ip is None ==> forall|i: int|
            0 <= i < route_excludes(server_ip).len() ==> !is_v4_host_route(
                #[trigger] route_excludes(server_ip)[i],
            ),
{
    reveal_strlit("10.0.0.0/8");
    reveal_strlit("172.16.0.0/12");
    reveal_strlit("192.168.0.0/16");
    reveal_strlit("169.254.0.0/16");
    reveal_strlit("fe80::/10");
    reveal_strlit("fc00::/7");
    reveal_strlit("/32");
    let r = route_excludes(server_ip);
    assert(r.take(6) =~= local_excludes());
    assert(r[2] == "192.168.0.0/16"@);
    match server_ip {
        Some(ip) => {
            assert(r =~= local_excludes().push(host_route(ip)));
        },
        None => {
            assert(r =~= local_excludes());
            assert forall|i: int| 0 <= i < r.len() implies !is_v4_host_route(#[trigger] r[i]) by {
                let s = r[i];
                assert(s.skip(s.len() - 3)[2] != "/32"@[2] || s.skip(s.len() - 3)[1]
                    != "/32"@[1]);
            }
        },
    }
}

/// A single-host route is the address followed by `/128` when the address
/// has a `:` (IPv6), else by `/32`.
pub proof fn lemma_host_route_suffix(ip: Seq<char>)
    ensures
        host_route(ip).take(ip.len() as int) == ip,
        !ip.contains(':') ==> is_v4_host_route(host_route(ip)),
        ip.contains(':') ==> host_route(ip).skip(ip.len() as int) == "/128"@,
{
    reveal_strlit("/32");
    reveal_strlit("/128");
    let h = host_route(ip);
    assert(h.take(ip.len() as int) =~= ip);
    if !ip.contains(':') {
        assert(h.skip(h.len() - 3) =~= "/32"@);
    } else {
        assert(h.skip(ip.len() as int) =~= "/128"@);
    }
}

/// With a pre-resolved address the proxy dials that address, while its TLS
/// block (and so the SNI) stays as the link gives it; without one it dials
/// the link's host.
pub proof fn lemma_proxy_server(l: SpecVlessLink, ip: Seq<char>)
    ensures
        field(spec_proxy(l, Some(ip)), "server"@) == Some(jstr(ip)),
        field(spec_proxy(l, Some(ip)), "tls"@) == field(spec_outbound(l), "tls"@),
        field(spec_proxy(l, None), "server"@) == Some(jstr(l.host)),
{
    reveal_strlit("server");
    reveal_strlit("tls");
    reveal_strlit("type");
    reveal_strlit("tag");
    if let Json::Object(e) = spec_outbound(l) {
        lemma_with_field(e, "server"@, jstr(ip), "tls"@);
        let keys = keys_of(e);
        keys.index_of_first_ensures("server"@);
        assert(keys[2] == "server"@);
        assert(keys[0] != "server"@);
        assert(keys[1] != "server"@);
    }
}

/// The rules send the bypassed processes direct, and there is no such rule
/// when there are none; whatever no rule matches goes to the proxy.
pub proof fn lemma_bypass_rules(
    l: SpecVlessLink,
    tun_iface: Seq<char>,
    server_ip: Option<Seq<char>>,
    bypass: Seq<Seq<char>>,
)
    ensures
        bypass.len() == 0 ==> spec_rules(bypass).len() == 2,
        bypass.len() > 0 ==> spec_rules(bypass).last() == Json::Object(
            seq![("process_name"@, jstrs(bypass)), ("outbound"@, jstr("direct"@))],
        ),
        field(spec_singbox_config(l, tun_iface, server_ip, bypass), "route"@) == Some(
            Json::Object(
                seq![
                    ("rules"@, Json::Array(spec_rules(bypass))),
                    ("auto_detect_interface"@, Json::Bool(true)),
                    ("default_domain_resolver"@, jstr("local"@)),
                    ("final"@, jstr("proxy"@)),
                ],
            ),
        ),
{
    reveal_strlit("log");
    reveal_strlit("dns");
    reveal_strlit("inbounds");
    reveal_strlit("outbounds");
    reveal_strlit("route");
    if let Json::Object(e) = spec_singbox_config(l, tun_iface, server_ip, bypass) {
        let keys = keys_of(e);
        keys.index_of_first_ensures("route"@);
        assert(keys[4] == "route"@);
        assert(keys[0] != "route"@);
        assert(keys[1] != "route"@);
        assert(keys[2] != "route"@);
        assert(keys[3] != "route"@);
    }
}

/// The configuration's inbound is the TUN and its outbounds are the proxy,
/// then `direct`.
pub proof fn lemma_config_bounds(
    l: SpecVlessLink,
    tun_iface: Seq<char>,
    server_ip: Option<Seq<char>>,
    bypass: Seq<Seq<char>>,
)
    ensures
        field(spec_singbox_config(l, tun_iface, server_ip, bypass), "inbounds"@) == Some(
            Json::Array(seq![spec_tun(tun_iface, server_ip)]),
        ),
        field(spec_singbox_config(l, tun_iface, server_ip, bypass), "outbounds"@) == Some(
            Json::Array(seq![spec_proxy(l, server_ip), spec_direct()]),
        ),
{
    reveal_strlit("log");
    reveal_strlit("dns");
    reveal_strlit("inbounds");
    reveal_strlit("outbounds");
    let cfg = spec_singbox_config(l, tun_iface, server_ip, bypass);
    if let Json::Object(e) = cfg {
        let keys = keys_of(e);
        assert(keys[0] == "log"@);
        assert(keys[1] == "dns"@);
        assert(keys[2] == "inbounds"@);
        assert(keys[3] == "outbounds"@);
        assert("log"@ != "inbounds"@);
        assert("dns"@ != "inbounds"@);
        assert("log"@ != "outbounds"@);
        assert("dns"@ != "outbounds"@);
        assert("inbounds"@ != "outbounds"@);
        keys.index_of_first_ensures("inbounds"@);
        keys.index_of_first_ensures("outbounds"@);
    }
}

/// The TUN inbound routes all traffic into the tunnel: it is a TUN named
/// `tun_iface`, tagged `tun-in`, with its two addresses and an MTU of 1400,
/// installing the routes (`auto_route`) without nft strict routing, on the
/// userspace `gvisor` stack, and leaving `route_excludes` out.
pub proof fn lemma_tun_fields(tun_iface: Seq<char>, server_ip: Option<Seq<char>>)
    ensures
        field(spec_tun(tun_iface, server_ip), "type"@) == Some(jstr("tun"@)),
        field(spec_tun(tun_iface, server_ip), "tag"@) == Some(jstr("tun-in"@)),
        field(spec_tun(tun_iface, server_ip), "interface_name"@) == Some(jstr(tun_iface)),
        field(spec_tun(tun_iface, server_ip), "address"@) == Some(
            jstrs(seq!["172.19.0.1/30"@, "fdfe:dcba:9876::1/126"@]),
        ),
        field(spec_tun(tun_iface, server_ip), "mtu"@) == Some(Json::Number(1400)),
        field(spec_tun(tun_iface, server_ip), "auto_route"@) == Some(Json::Bool(true)),
        field(spec_tun(tun_iface, server_ip), "strict_route"@) == Some(Json::Bool(false)),
        field(spec_tun(tun_iface, server_ip), "stack"@) == Some(jstr("gvisor"@)),
        field(spec_tun(tun_iface, server_ip), "route_exclude_address"@) == Some(
            jstrs(route_excludes(server_ip)),
        ),
{
    reveal_strlit("type");
    reveal_strlit("tag");
    reveal_strlit("interface_name");
    reveal_strlit("address");
    reveal_strlit("mtu");
    reveal_strlit("auto_route");
    reveal_strlit("strict_route");
    reveal_strlit("stack");
    reveal_strlit("route_exclude_address");
    reveal_with_fuel(lookup_entry, 10);
    if let Json::Object(t) = spec_tun(tun_iface, server_ip) {
        let keys = seq![
            "type"@,
            "tag"@,
            "interface_name"@,
            "address"@,
            "mtu"@,
            "auto_route"@,
            "strict_route"@,
            "stack"@,
            "route_exclude_address"@,
        ];
        assert(keys_of(t) =~= keys);
        assert forall|a: int, b: int| 0 <= a < b < 9 implies keys[a] != keys[b] by {
            assert(keys[0][0] == 't' && keys[0][1] == 'y');
            assert(keys[1][0] == 't' && keys[1][1] == 'a');
            assert(keys[2][0] == 'i');
            assert(keys[3][0] == 'a' && keys[3][1] == 'd');
            assert(keys[4][0] == 'm');
            assert(keys[5][0] == 'a' && keys[5][1] == 'u');
            assert(keys[6][0] == 's' && keys[6][1] == 't' && keys[6][2] == 'r');
            assert(keys[7][0] == 's' && keys[7][1] == 't' && keys[7][2] == 'a');
            assert(keys[8][0] == 'r');
        }
        lemma_field_lookup(t, "type"@);
        lemma_field_lookup(t, "tag"@);
        lemma_field_lookup(t, "interface_name"@);
        lemma_field_lookup(t, "address"@);
        lemma_field_lookup(t, "mtu"@);
        lemma_field_lookup(t, "auto_route"@);
        lemma_field_lookup(t, "strict_route"@);
        lemma_field_lookup(t, "stack"@);
        lemma_field_lookup(t, "route_exclude_address"@);
        assert(t[0].0 == keys[0] && t[1].0 == keys[1] && t[2].0 == keys[2]);
        assert(t[3].0 == keys[3] && t[4].0 == keys[4] && t[5].0 == keys[5]);
        assert(t[6].0 == keys[6] && t[7].0 == keys[7] && t[8].0 == keys[8]);
    }
}

/// The outbound connects to the link's server with the link's credentials:
/// it is a VLESS outbound tagged `proxy`, dialing the link's host and port
/// with the link's uuid and `xudp` packet encoding, and it carries the
/// link's flow when it has one.
pub proof fn lemma_outbound_fields(l: SpecVlessLink)
    ensures
        field(spec_outbound(l), "type"@) == Some(jstr("vless"@)),
        field(spec_outbound(l), "tag"@) == Some(jstr("proxy"@)),
        field(spec_outbound(l), "server"@) == Some(jstr(l.host)),
        field(spec_outbound(l), "server_port"@) == Some(Json::Number(l.port as u64)),
        field(spec_outbound(l), "uuid"@) == Some(jstr(l.uuid)),
        field(spec_outbound(l), "packet_encoding"@) == Some(jstr("xudp"@)),
        field(spec_outbound(l), "flow"@) == match l.flow {
            Some(f) => Some(jstr(f)),
            None => None::<Json>,
        },
{
    reveal_strlit("type");
    reveal_strlit("tag");
    reveal_strlit("server");
    reveal_strlit("server_port");
    reveal_strlit("uuid");
    reveal_strlit("packet_encoding");
    reveal_strlit("flow");
    reveal_strlit("tls");
    reveal_strlit("transport");
    reveal_with_fuel(lookup_entry, 10);
    if let Json::Object(e) = spec_outbound(l) {
        lemma_field_lookup(e, "type"@);
        lemma_field_lookup(e, "tag"@);
        lemma_field_lookup(e, "server"@);
        lemma_field_lookup(e, "server_port"@);
        lemma_field_lookup(e, "uuid"@);
        lemma_field_lookup(e, "packet_encoding"@);
        lemma_field_lookup(e, "flow"@);
        assert("type"@[0] != "uuid"@[0]);
        assert("tls"@[1] != "tag"@[1]);
        assert("server_port"@ != "type"@);
        assert("server_port"@ != "tag"@);
        assert("server_port"@.len() != "server"@.len());
        assert("server_port"@ != "server"@);
        assert("packet_encoding"@ != "type"@);
        assert("packet_encoding"@.len() != "tag"@.len());
        assert("packet_encoding"@ != "tag"@);
        assert("packet_encoding"@ != "server"@);
        assert("packet_encoding"@ != "server_port"@);
        assert("packet_encoding"@ != "uuid"@);
        assert("flow"@[0] != "type"@[0]);
        assert("flow"@[0] != "uuid"@[0]);
    }
}

/// The outbound uses TLS exactly when the link's security is not `none`,
/// and has a transport block exactly for the `ws` and `grpc` transports.
pub proof fn lemma_outbound_blocks(l: SpecVlessLink)
    ensures
        field(spec_outbound(l), "tls"@) == if l.security != "none"@ {
            Some(spec_tls(l))
        } else {
            None::<Json>
        },
        field(spec_outbound(l), "transport"@) is Some <==> (l.transport == "ws"@ || l.transport
            == "grpc"@),
        field(spec_outbound(l), "transport"@) matches Some(t) ==> spec_transport(l) == seq![
            ("transport"@, t),
        ],
{
    reveal_strlit("type");
    reveal_strlit("tag");
    reveal_strlit("server");
    reveal_strlit("server_port");
    reveal_strlit("uuid");
    reveal_strlit("packet_encoding");
    reveal_strlit("flow");
    reveal_strlit("tls");
    reveal_strlit("transport");
    reveal_with_fuel(lookup_entry, 10);
    assert("tls"@[1] != "tag"@[1]);
    assert("tls"@.len() != "type"@.len());
    assert("tls"@.len() != "uuid"@.len());
    assert("tls"@.len() != "flow"@.len());
    assert("tls"@.len() != "server"@.len());
    assert("tls"@.len() != "server_port"@.len());
    assert("tls"@.len() != "packet_encoding"@.len());
    assert("tls"@.len() != "transport"@.len());
    assert("transport"@.len() != "type"@.len());
    assert("transport"@.len() != "tag"@.len());
    assert("transport"@.len() != "uuid"@.len());
    assert("transport"@.len() != "flow"@.len());
    assert("transport"@.len() != "server"@.len());
    assert("transport"@.len() != "server_port"@.len());
    assert("transport"@.len() != "packet_encoding"@.len());
    if let Json::Object(e) = spec_outbound(l) {
        lemma_field_lookup(e, "tls"@);
        lemma_field_lookup(e, "transport"@);
    }
}

/// The TLS block: enabled, with the link's SNI as server name (the host when
/// the link names no SNI), the uTLS fingerprint when the link gives one,
/// a Reality block exactly for `reality` security, and the ALPN list when
/// the link gives one.
pub proof fn lemma_tls_fields(l: SpecVlessLink)
    ensures
        field(spec_tls(l), "enabled"@) == Some(Json::Bool(true)),
        field(spec_tls(l), "server_name"@) == Some(
            jstr(
                match l.sni {
                    Some(s) => s,
                    None => l.host,
                },
            ),
        ),
        field(spec_tls(l), "utls"@) == match l.fingerprint {
            Some(fp) => Some(
                Json::Object(seq![("enabled"@, Json::Bool(true)), ("fingerprint"@, jstr(fp))]),
            ),
            None => None::<Json>,
        },
        field(spec_tls(l), "reality"@) == if l.security == "reality"@ {
            Some(spec_reality(l))
        } else {
            None::<Json>
        },
        field(spec_tls(l), "alpn"@) == match l.alpn {
            Some(a) => Some(jstrs(alpn_list(a))),
            None => None::<Json>,
        },
{
    reveal_strlit("enabled");
    reveal_strlit("server_name");
    reveal_strlit("utls");
    reveal_strlit("reality");
    reveal_strlit("alpn");
    reveal_with_fuel(lookup_entry, 6);
    assert("enabled"@.len() != "server_name"@.len());
    assert("enabled"@ != "reality"@) by {
        assert("enabled"@[0] != "reality"@[0]);
    }
    assert("enabled"@.len() != "utls"@.len());
    assert("enabled"@.len() != "alpn"@.len());
    assert("server_name"@.len() != "utls"@.len());
    assert("server_name"@.len() != "reality"@.len());
    assert("server_name"@.len() != "alpn"@.len());
    assert("utls"@.len() != "reality"@.len());
    assert("utls"@[0] != "alpn"@[0]);
    assert("reality"@.len() != "alpn"@.len());
    if let Json::Object(e) = spec_tls(l) {
        lemma_field_lookup(e, "enabled"@);
        lemma_field_lookup(e, "server_name"@);
        lemma_field_lookup(e, "utls"@);
        lemma_field_lookup(e, "reality"@);
        lemma_field_lookup(e, "alpn"@);
    }
}

/// The Reality block: enabled, with the link's public key and short id when
/// it gives them.
pub proof fn lemma_reality_fields(l: SpecVlessLink)
    ensures
        field(spec_reality(l), "enabled"@) == Some(Json::Bool(true)),
        field(spec_reality(l), "public_key"@) == match l.public_key {
            Some(k) => Some(jstr(k)),
            None => None::<Json>,
        },
        field(spec_reality(l), "short_id"@) == match l.short_id {
            Some(k) => Some(jstr(k)),
            None => None::<Json>,
        },
{
    reveal_strlit("enabled");
    reveal_strlit("public_key");
    reveal_strlit("short_id");
    reveal_with_fuel(lookup_entry, 4);
    assert("enabled"@.len() != "public_key"@.len());
    assert("enabled"@.len() != "short_id"@.len());
    assert("public_key"@.len() != "short_id"@.len());
    if let Json::Object(e) = spec_reality(l) {
        lemma_field_lookup(e, "enabled"@);
        lemma_field_lookup(e, "public_key"@);
        lemma_field_lookup(e, "short_id"@);
    }
}

/// The transport block: for `ws`, its type, the link's path and its `Host`
/// header when given; for `grpc`, its type and the link's service name when
/// given; no block for any other transport.
pub proof fn lemma_transport_fields(l: SpecVlessLink)
    ensures
        l.transport == "ws"@ ==> spec_transport(l).len() == 1 && ({
            let t = spec_transport(l)[0].1;
            &&& field(t, "type"@) == Some(jstr("ws"@))
            &&& field(t, "path"@) == match l.path {
                Some(p) => Some(jstr(p)),
                None => None::<Json>,
            }
            &&& field(t, "headers"@) == match l.host_header {
                Some(h) => Some(Json::Object(seq![("Host"@, jstr(h))])),
                None => None::<Json>,
            }
        }),
        l.transport == "grpc"@ ==> spec_transport(l).len() == 1 && ({
            let t = spec_transport(l)[0].1;
            &&& field(t, "type"@) == Some(jstr("grpc"@))
            &&& field(t, "service_name"@) == match l.service_name {
                Some(n) => Some(jstr(n)),
                None => None::<Json>,
            }
        }),
        l.transport != "ws"@ && l.transport != "grpc"@ ==> spec_transport(l).len() == 0,
{
    reveal_strlit("ws");
    reveal_strlit("grpc");
    reveal_strlit("type");
    reveal_strlit("path");
    reveal_strlit("headers");
    reveal_strlit("service_name");
    reveal_with_fuel(lookup_entry, 4);
    assert("ws"@.len() != "grpc"@.len());
    assert("type"@[0] != "path"@[0]);
    assert("type"@.len() != "headers"@.len());
    assert("path"@.len() != "headers"@.len());
    assert("type"@.len() != "service_name"@.len());
    if l.transport == "ws"@ {
        if let Json::Object(e) = spec_transport(l)[0].1 {
            lemma_field_lookup(e, "type"@);
            lemma_field_lookup(e, "path"@);
            lemma_field_lookup(e, "headers"@);
        }
    } else if l.transport == "grpc"@ {
        if let Json::Object(e) = spec_transport(l)[0].1 {
            lemma_field_lookup(e, "type"@);
            lemma_field_lookup(e, "service_name"@);
        }
    }
}

/// The configuration logs warnings with timestamps, and resolves names
/// through DNS-over-HTTPS at 1.1.1.1 sent through the proxy, with a local
/// resolver beside it, preferring IPv4.
pub proof fn lemma_config_log_dns(
    l: SpecVlessLink,
    tun_iface: Seq<char>,
    server_ip: Option<Seq<char>>,
    bypass: Seq<Seq<char>>,
)
    ensures
        field(spec_singbox_config(l, tun_iface, server_ip, bypass), "log"@) == Some(
            Json::Object(seq![("level"@, jstr("warn"@)), ("timestamp"@, Json::Bool(true))]),
        ),
        field(spec_singbox_config(l, tun_iface, server_ip, bypass), "dns"@) == Some(
            Json::Object(
                seq![
                    (
                        "servers"@,
                        Json::Array(
                            seq![
                                Json::Object(
                                    seq![
                                        ("type"@, jstr("https"@)),
                                        ("tag"@, jstr("remote"@)),
                                        ("server"@, jstr("1.1.1.1"@)),
                                        ("detour"@, jstr("proxy"@)),
                                    ],
                                ),
                                Json::Object(seq![("type"@, jstr("local"@)), ("tag"@, jstr("local"@))]),
                            ],
                        ),
                    ),
                    ("strategy"@, jstr("prefer_ipv4"@)),
                ],
            ),
        ),
{
    reveal_strlit("log");
    reveal_strlit("dns");
    reveal_with_fuel(lookup_entry, 3);
    assert("log"@[0] != "dns"@[0]);
    if let Json::Object(e) = spec_singbox_config(l, tun_iface, server_ip, bypass) {
        lemma_field_lookup(e, "log"@);
        lemma_field_lookup(e, "dns"@);
    }
}

/// The SOCKS test configuration listens on 127.0.0.1 at `socks_port`, has
/// no TUN, sends everything through the link's outbound, and logs at `info`.
pub proof fn lemma_socks_test_config(l: SpecVlessLink, socks_port: u16)
    ensures
        field(spec_socks_test_config(l, socks_port), "inbounds"@) == Some(
            Json::Array(
                seq![
                    Json::Object(
                        seq![
                            ("type"@, jstr("mixed"@)),
                            ("tag"@, jstr("in"@)),
                            ("listen"@, jstr("127.0.0.1"@)),
                            ("listen_port"@, Json::Number(socks_port as u64)),
                        ],
                    ),
                ],
            ),
        ),
        field(spec_socks_test_config(l, socks_port), "outbounds"@) == Some(
            Json::Array(seq![spec_outbound(l), spec_direct()]),
        ),
        field(spec_socks_test_config(l, socks_port), "route"@) == Some(
            Json::Object(seq![("final"@, jstr("proxy"@))]),
        ),
        field(spec_socks_test_config(l, socks_port), "log"@) == Some(
            Json::Object(seq![("level"@, jstr("info"@)), ("timestamp"@, Json::Bool(true))]),
        ),
{
    reveal_strlit("log");
    reveal_strlit("inbounds");
    reveal_strlit("outbounds");
    reveal_strlit("route");
    reveal_with_fuel(lookup_entry, 5);
    assert("log"@.len() != "inbounds"@.len());
    assert("log"@.len() != "outbounds"@.len());
    assert("log"@.len() != "route"@.len());
    assert("inbounds"@.len() != "outbounds"@.len());
    assert("inbounds"@.len() != "route"@.len());
    assert("outbounds"@.len() != "route"@.len());
    if let Json::Object(e) = spec_socks_test_config(l, socks_port) {
        lemma_field_lookup(e, "log"@);
        lemma_field_lookup(e, "inbounds"@);
        lemma_field_lookup(e, "outbounds"@);
        lemma_field_lookup(e, "route"@);
    }
}

/// The ALPN list of the link: a text without `,` gives its trimmed text as
/// the one protocol (none when that is empty), and a list joined at a `,`
/// gives the protocols of each side, in order.
pub proof fn lemma_alpn_list(a: Seq<char>, b: Seq<char>)
    ensures
        !a.contains(',') ==> alpn_list(a) == if trimmed(a).len() > 0 {
            seq![trimmed(a)]
        } else {
            Seq::<Seq<char>>::empty()
        },
        alpn_list(a + seq![','] + b) == alpn_list(a) + alpn_list(b),
{
    if !a.contains(',') {
        crate::vless::lemma_split_single(a, ',');
        assert(seq![a].drop_last() =~= Seq::<Seq<char>>::empty());
        assert(nonempty_trimmed(Seq::<Seq<char>>::empty()) =~= Seq::<Seq<char>>::empty());
    }
    lemma_split_concat(a, b, ',');
    assert(a + seq![','] + b =~= a.push(',') + b);
    lemma_nonempty_trimmed_concat(split_on(a, ','), split_on(b, ','));
}

} // verus!
