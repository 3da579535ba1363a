use std::path::PathBuf;

use awg_tray::autostart::{desktop_entry, is_enabled, toggle, AutostartChange};
use awg_tray::icon::status_color;
use awg_tray::vpn::{
    backend_failure, detect_status, find_server, next_probe, preferred_address, server_kind, sort_servers, vless_config_file,
    vless_launch_args, vless_unit, Server, ServerKind, VpnStatus,
};

fn server(name: &str, kind: ServerKind) -> Server {
    let ext = if kind == ServerKind::Vless { "vless" } else { "conf" };
    Server {
        name: name.to_string(),
        path: PathBuf::from(format!("/vpn/{name}.{ext}")),
        kind,
    }
}

#[test]
fn status_labels() {
    assert_eq!(VpnStatus::Disconnected.label(), "Disconnected");
    assert_eq!(VpnStatus::Connected("latvia".into()).label(), "Connected (latvia)");
    assert_eq!(
        VpnStatus::Connecting("latvia".into()).label(),
        "Connecting (latvia)\u{2026}"
    );
}

#[test]
fn active_server_of_each_status() {
    assert_eq!(VpnStatus::Disconnected.active_server(), None);
    assert_eq!(VpnStatus::Connected("a".into()).active_server(), Some("a"));
    assert_eq!(VpnStatus::Connecting("b".into()).active_server(), Some("b"));
}

#[test]
fn server_kinds_by_extension() {
    assert_eq!(server_kind(Some("conf")), Some(ServerKind::Wireguard));
    assert_eq!(server_kind(Some("vless")), Some(ServerKind::Vless));
    assert_eq!(server_kind(Some("json")), None);
    assert_eq!(server_kind(Some("CONF")), None);
    assert_eq!(server_kind(None), None);
}

#[test]
fn servers_sort_by_name() {
    let sorted = sort_servers(vec![
        server("poland", ServerKind::Vless),
        server("Latvia", ServerKind::Wireguard),
        server("latvia", ServerKind::Wireguard),
        server("a", ServerKind::Vless),
        server("ab", ServerKind::Wireguard),
        server("a", ServerKind::Wireguard),
    ]);
    let names: Vec<(&str, ServerKind)> = sorted.iter().map(|s| (s.name.as_str(), s.kind)).collect();
    assert_eq!(
        names,
        vec![
            ("Latvia", ServerKind::Wireguard),
            ("a", ServerKind::Vless),
            ("a", ServerKind::Wireguard),
            ("ab", ServerKind::Wireguard),
            ("latvia", ServerKind::Wireguard),
            ("poland", ServerKind::Vless),
        ]
    );
}

#[test]
fn find_server_by_name() {
    let servers = vec![server("a", ServerKind::Vless), server("b", ServerKind::Wireguard)];
    let s = find_server(servers, "b").unwrap();
    assert_eq!(s.name, "b");
    assert_eq!(s.path, PathBuf::from("/vpn/b.conf"));
    let servers = vec![server("a", ServerKind::Vless)];
    assert!(find_server(servers, "c").is_none());
}

#[test]
fn first_server_found_up_is_connected() {
    let servers = vec![
        server("a", ServerKind::Vless),
        server("b", ServerKind::Wireguard),
        server("c", ServerKind::Wireguard),
    ];
    assert_eq!(detect_status(&servers, &vec![false, true]), VpnStatus::Connected("b".into()));
    assert_eq!(detect_status(&servers, &vec![false, false, false]), VpnStatus::Disconnected);
    assert_eq!(detect_status(&servers, &vec![]), VpnStatus::Disconnected);
    assert_eq!(detect_status(&servers, &vec![true, true]), VpnStatus::Connected("a".into()));
}

#[test]
fn unit_names_are_sanitised() {
    assert_eq!(vless_unit("Poland"), "awg-vless-Poland");
    assert_eq!(vless_unit("my server/ü.1_x"), "awg-vless-my-server--.1_x");
    assert_eq!(vless_config_file("Poland"), "Poland.json");
    assert_eq!(
        vless_launch_args("awg-vless-Poland", "/run/user/1000/awg-tray/Poland.json"),
        vec![
            "systemd-run",
            "--unit=awg-vless-Poland",
            "--collect",
            "--property=Restart=on-failure",
            "sing-box",
            "run",
            "-c",
            "/run/user/1000/awg-tray/Poland.json"
        ]
    );
}

#[test]
fn ipv4_addresses_are_preferred() {
    let c = vec![("2001:db8::1".to_string(), false), ("1.2.3.4".to_string(), true)];
    assert_eq!(preferred_address(&c).as_deref(), Some("1.2.3.4"));
    let c = vec![("2001:db8::1".to_string(), false), ("2001:db8::2".to_string(), false)];
    assert_eq!(preferred_address(&c).as_deref(), Some("2001:db8::1"));
    assert_eq!(preferred_address(&vec![]), None);
}

#[test]
fn autostart_entry_and_toggle() {
    assert_eq!(
        desktop_entry("/usr/bin/awg-tray"),
        "[Desktop Entry]\nType=Application\nName=AWG Tray\nExec=/usr/bin/awg-tray\nIcon=network-vpn\nTerminal=false\n"
    );
    assert!(is_enabled(Some(true)));
    assert!(!is_enabled(Some(false)));
    assert!(!is_enabled(None));
    assert_eq!(toggle(true), AutostartChange::Disable);
    assert_eq!(toggle(false), AutostartChange::Enable);
}

#[test]
fn icon_colours() {
    assert_eq!(status_color(&VpnStatus::Connected("a".into())), (0x2e, 0xcc, 0x71));
    assert_eq!(status_color(&VpnStatus::Disconnected), (0xe7, 0x4c, 0x3c));
    assert_eq!(status_color(&VpnStatus::Connecting("a".into())), (0xf3, 0x9c, 0x12));
}

#[test]
fn backend_failures_name_command_code_and_output() {
    assert_eq!(
        backend_failure("awg-quick up", Some(1), b"no such file\n"),
        "awg-quick up failed (exit 1): no such file\n"
    );
    assert_eq!(backend_failure("systemctl stop", None, b""), "systemctl stop failed (exit -1): ");
    assert_eq!(
        backend_failure("systemd-run", Some(-2147483648), b"\xffbad"),
        "systemd-run failed (exit -2147483648): \u{fffd}bad"
    );
    assert_eq!(backend_failure("x", Some(2147483647), b""), "x failed (exit 2147483647): ");
    assert_eq!(backend_failure("x", Some(0), b""), "x failed (exit 0): ");
    assert_eq!(backend_failure("x", Some(130), b""), "x failed (exit 130): ");
}

#[test]
fn probing_goes_in_order_and_stops_at_the_first_server_up() {
    let servers = vec![
        server("a", ServerKind::Vless),
        server("b", ServerKind::Wireguard),
        server("c", ServerKind::Wireguard),
    ];
    assert_eq!(next_probe(&servers, &vec![]), Some(0));
    assert_eq!(next_probe(&servers, &vec![false]), Some(1));
    assert_eq!(next_probe(&servers, &vec![false, true]), None);
    assert_eq!(next_probe(&servers, &vec![false, false, false]), None);
    assert_eq!(next_probe(&vec![], &vec![]), None);
    // Stopping early gives the status that probing everything would.
    assert_eq!(
        detect_status(&servers, &vec![false, true]),
        detect_status(&servers, &vec![false, true, true])
    );
}
