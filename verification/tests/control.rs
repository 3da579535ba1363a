use std::path::PathBuf;

use awg_tray::control::{
    advance, after_failed_spawn, begin, poll_update, Outcome, SpawnNext, Step, TRAY_MAX_RETRIES,
};
use awg_tray::tray::{menu_model, server_label, VpnAction};
use awg_tray::vpn::{Server, ServerKind, VpnStatus};

fn connected(n: &str) -> VpnStatus {
    VpnStatus::Connected(n.to_string())
}

fn connecting(n: &str) -> VpnStatus {
    VpnStatus::Connecting(n.to_string())
}

#[test]
fn switching_tears_the_current_server_down_first() {
    let (status, step) = begin(&connected("a"), VpnAction::Connect("b".into()));
    assert_eq!(status, Some(connecting("b")));
    match &step {
        Step::Disconnect { server, then_connect } => {
            assert_eq!(server, "a");
            assert_eq!(then_connect.as_deref(), Some("b"));
        }
        other => panic!("unexpected step {other:?}"),
    }
    let (status, step) = advance(step, Outcome::Succeeded);
    assert_eq!(status, None);
    match &step {
        Step::Connect { server } => assert_eq!(server, "b"),
        other => panic!("unexpected step {other:?}"),
    }
    let (status, step) = advance(step, Outcome::Succeeded);
    assert_eq!(status, Some(connected("b")));
    assert!(matches!(step, Step::Done));
}

#[test]
fn failed_teardown_abandons_the_switch() {
    let (_, step) = begin(&connected("a"), VpnAction::Connect("b".into()));
    let (status, step) = advance(step, Outcome::Failed);
    assert_eq!(status, Some(connected("a")));
    assert!(matches!(step, Step::Done));
}

#[test]
fn missing_old_server_abandons_the_switch() {
    let (_, step) = begin(&connected("gone"), VpnAction::Connect("b".into()));
    let (status, step) = advance(step, Outcome::NotFound);
    assert_eq!(status, Some(connected("gone")));
    assert!(matches!(step, Step::Done));
}

#[test]
fn connecting_from_disconnected_and_failing() {
    let (status, step) = begin(&VpnStatus::Disconnected, VpnAction::Connect("b".into()));
    assert_eq!(status, Some(connecting("b")));
    let (status, step) = advance(step, Outcome::Failed);
    assert_eq!(status, Some(VpnStatus::Disconnected));
    assert!(matches!(step, Step::Done));
}

#[test]
fn reconnecting_the_active_server_does_nothing() {
    let (status, step) = begin(&connected("a"), VpnAction::Connect("a".into()));
    assert_eq!(status, None);
    assert!(matches!(step, Step::Done));
    let (status, step) = begin(&connecting("a"), VpnAction::Connect("a".into()));
    assert_eq!(status, None);
    assert!(matches!(step, Step::Done));
}

#[test]
fn disconnect_action() {
    let (status, step) = begin(&connected("a"), VpnAction::Disconnect);
    assert_eq!(status, None);
    let (status, step2) = advance(step, Outcome::Succeeded);
    assert_eq!(status, Some(VpnStatus::Disconnected));
    assert!(matches!(step2, Step::Done));
    let (_, step) = begin(&connected("a"), VpnAction::Disconnect);
    let (status, _) = advance(step, Outcome::Failed);
    assert_eq!(status, None);
    let (status, step) = begin(&VpnStatus::Disconnected, VpnAction::Disconnect);
    assert_eq!(status, None);
    assert!(matches!(step, Step::Done));
}

#[test]
fn other_actions() {
    assert!(matches!(begin(&VpnStatus::Disconnected, VpnAction::ToggleAutostart).1, Step::ToggleAutostart));
    assert!(matches!(begin(&VpnStatus::Disconnected, VpnAction::Quit).1, Step::Quit));
}

#[test]
fn poller_leaves_transitions_alone() {
    assert_eq!(poll_update(&connecting("a"), VpnStatus::Disconnected), None);
    assert_eq!(poll_update(&connected("a"), connected("a")), None);
    assert_eq!(poll_update(&connected("a"), VpnStatus::Disconnected), Some(VpnStatus::Disconnected));
    assert_eq!(poll_update(&VpnStatus::Disconnected, connected("b")), Some(connected("b")));
    assert_eq!(poll_update(&VpnStatus::Disconnected, VpnStatus::Disconnected), None);
}

fn server(name: &str, kind: ServerKind) -> Server {
    Server {
        name: name.to_string(),
        path: PathBuf::from(format!("/vpn/{name}")),
        kind,
    }
}

#[test]
fn menu_labels_and_selection() {
    assert_eq!(server_label(&server("latvia", ServerKind::Wireguard)), "Latvia");
    assert_eq!(server_label(&server("poland", ServerKind::Vless)), "Poland (VLESS)");
    assert_eq!(server_label(&server("ßa", ServerKind::Wireguard)), "SSa");
    assert_eq!(server_label(&server("", ServerKind::Vless)), " (VLESS)");

    let servers = vec![server("latvia", ServerKind::Wireguard), server("poland", ServerKind::Vless)];
    let m = menu_model(&connected("poland"), &servers);
    assert_eq!(m.status_line, "Status: Connected (poland)");
    assert_eq!(m.options, vec!["Latvia", "Poland (VLESS)"]);
    assert_eq!(m.selected, 1);
    assert!(m.show_disconnect);

    let m = menu_model(&connecting("latvia"), &servers);
    assert_eq!(m.selected, 0);
    assert!(!m.show_disconnect);

    let m = menu_model(&VpnStatus::Disconnected, &servers);
    assert_eq!(m.selected, usize::MAX);
    assert_eq!(m.status_line, "Status: Disconnected");

    let m = menu_model(&connected("gone"), &servers);
    assert_eq!(m.selected, usize::MAX);
}

#[test]
fn tray_registration_is_retried_ten_times() {
    assert_eq!(TRAY_MAX_RETRIES, 10);
    assert_eq!(after_failed_spawn(0), SpawnNext::Retry(1));
    assert_eq!(after_failed_spawn(9), SpawnNext::Retry(10));
    assert_eq!(after_failed_spawn(10), SpawnNext::GiveUp);
    let mut attempts = 1;
    let mut attempt = 0;
    while let SpawnNext::Retry(n) = after_failed_spawn(attempt) {
        assert_eq!(n, attempt + 1);
        attempt = n;
        attempts += 1;
    }
    assert_eq!(attempts, 11);
}
