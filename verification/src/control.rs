//! The decisions of the tray's action handler, its status poller and its
//! startup.
//!
//! The handler works through one action at a time. For each it asks for a
//! piece of outside work (a [`Step`]); the caller performs it, reports how
//! it went (an [`Outcome`]) and asks again, until the step is `Done`. Along
//! the way the handler says which status the tray should show.
//!
//! Switching servers tears the current one down first, and the new one is
//! only brought up once the old one is down, so at most one tunnel is ever
//! active.
//!
//! Registering the tray at startup is retried a fixed number of times, since
//! the desktop's tray host may not be up yet.

use vstd::prelude::*;

use crate::tray::VpnAction;
use crate::vpn::VpnStatus;

verus! {

/// The outside work the handler asks for next.
#[derive(Debug)]
pub enum Step {
    /// Nothing more to do for this action.
    Done,
    /// Look up the server named `server` and bring it down; afterwards
    /// `then_connect`, when given, is the server to bring up.
    Disconnect { server: String, then_connect: Option<String> },
    /// Look up the server named `server` and bring it up.
    Connect { server: String },
    /// Flip the autostart entry and refresh the tray's checkbox.
    ToggleAutostart,
    /// Exit the program.
    Quit,
}

/// How a disconnect or connect step went.
#[derive(Debug, Clone, Copy, PartialEq, Eq)]
pub enum Outcome {
    /// No server file with that name exists (any more).
    NotFound,
    /// The backend reported an error.
    Failed,
    /// The backend succeeded.
    Succeeded,
}

/// The text of a status.
pub enum SpecStatus {
    Disconnected,
    Connected(Seq<char>),
    Connecting(Seq<char>),
}

/// The text of an action.
pub enum SpecAction {
    Connect(Seq<char>),
    Disconnect,
    ToggleAutostart,
    Quit,
}

/// The text of a step.
pub enum SpecStep {
    Done,
    Disconnect(Seq<char>, Option<Seq<char>>),
    Connect(Seq<char>),
    ToggleAutostart,
    Quit,
}

pub open spec fn status_view(s: VpnStatus) -> SpecStatus {
    match s {
        VpnStatus::Disconnected => SpecStatus::Disconnected,
        VpnStatus::Connected(n) => SpecStatus::Connected(n@),
        VpnStatus::Connecting(n) => SpecStatus::Connecting(n@),
    }
}

pub open spec fn opt_status_view(s: Option<VpnStatus>) -> Option<SpecStatus> {
    match s {
        Some(x) => Some(status_view(x)),
        None => None,
    }
}

pub open spec fn action_view(a: VpnAction) -> SpecAction {
    match a {
        VpnAction::Connect(n) => SpecAction::Connect(n@),
        VpnAction::Disconnect => SpecAction::Disconnect,
        VpnAction::ToggleAutostart => SpecAction::ToggleAutostart,
        VpnAction::Quit => SpecAction::Quit,
    }
}

pub open spec fn step_view(s: Step) -> SpecStep {
    match s {
        Step::Done => SpecStep::Done,
        Step::Disconnect { server, then_connect } => SpecStep::Disconnect(
            server@,
            match then_connect {
                Some(t) => Some(t@),
                None => None,
            },
        ),
        Step::Connect { server } => SpecStep::Connect(server@),
        Step::ToggleAutostart => SpecStep::ToggleAutostart,
        Step::Quit => SpecStep::Quit,
    }
}

/// The server that is up or coming up, if any.
pub open spec fn active_of(s: SpecStatus) -> Option<Seq<char>> {
    match s {
        SpecStatus::Connected(n) => Some(n),
        SpecStatus::Connecting(n) => Some(n),
        SpecStatus::Disconnected => None,
    }
}

/// What the handler does first for `action` while the tray shows `status`:
/// the status to show (`None`: leave it) and the first step.
///
/// Connecting to the server that is already active does nothing. Otherwise
/// the tray shows `Connecting`, and the active server, if any, is brought
/// down before the new one is brought up.
pub open spec fn spec_begin(status: SpecStatus, action: SpecAction) -> (Option<SpecStatus>, SpecStep) {
    match action {
        SpecAction::Connect(target) => match active_of(status) {
            Some(current) => if current == target {
                (None, SpecStep::Done)
            } else {
                (Some(SpecStatus::Connecting(target)), SpecStep::Disconnect(current, Some(target)))
            },
            None => (Some(SpecStatus::Connecting(target)), SpecStep::Connect(target)),
        },
        SpecAction::Disconnect => match active_of(status) {
            Some(current) => (None, SpecStep::Disconnect(current, None)),
            None => (None, SpecStep::Done),
        },
        SpecAction::ToggleAutostart => (None, SpecStep::ToggleAutostart),
        SpecAction::Quit => (None, SpecStep::Quit),
    }
}

/// What the handler does after `step` ended with `outcome`: the status to
/// show (`None`: leave it) and the next step.
///
/// - Tearing down before a switch: if the server went down, the new one is
///   brought up next; if it failed, or its file is gone so that it cannot be
///   brought down, the tray shows it connected again and the switch is
///   abandoned, so that two tunnels are never up at once.
/// - A plain disconnect shows `Disconnected` only when it succeeded.
/// - Bringing a server up shows it connected when that succeeded, and
///   `Disconnected` otherwise.
pub open spec fn spec_advance(step: SpecStep, outcome: Outcome) -> (Option<SpecStatus>, SpecStep) {
    match step {
        SpecStep::Disconnect(current, Some(target)) => match outcome {
            Outcome::Succeeded => (None, SpecStep::Connect(target)),
            _ => (Some(SpecStatus::Connected(current)), SpecStep::Done),
        },
        SpecStep::Disconnect(_, None) => match outcome {
            Outcome::Succeeded => (Some(SpecStatus::Disconnected), SpecStep::Done),
            _ => (None, SpecStep::Done),
        },
        SpecStep::Connect(target) => match outcome {
            Outcome::Succeeded => (Some(SpecStatus::Connected(target)), SpecStep::Done),
            _ => (Some(SpecStatus::Disconnected), SpecStep::Done),
        },
        _ => (None, SpecStep::Done),
    }
}

/// What the poller shows after detecting `detected`: nothing new while the
/// tray shows `Connecting` (a transition is under way) or when nothing
/// changed, else the detected status.
pub open spec fn spec_poll_update(current: SpecStatus, detected: SpecStatus) -> Option<SpecStatus> {
    match current {
        SpecStatus::Connecting(_) => None,
        _ => if current == detected {
            None
        } else {
            Some(detected)
        },
    }
}

/// A copy of the text of `s`.
fn copy_name(s: &String) -> (r: String)
    ensures
        r@ == s@,
{
    s.clone()
}

/// The first step of handling `action` while the tray shows `status`, and
/// the status to show meanwhile (`None`: leave it).
pub fn begin(status: &VpnStatus, action: VpnAction) -> (r: (Option<VpnStatus>, Step))
    ensures
        (opt_status_view(r.0), step_view(r.1)) == spec_begin(
            status_view(*status),
            action_view(action),
        ),
{
    match action {
        VpnAction::Connect(target) => {
            let current = match status {
                VpnStatus::Connected(n) => Some(n),
                VpnStatus::Connecting(n) => Some(n),
                VpnStatus::Disconnected => None,
            };
            match current {
                Some(c) => {
                    if *c == target {
                        (None, Step::Done)
                    } else {
                        (
                            Some(VpnStatus::Connecting(copy_name(&target))),
                            Step::Disconnect { server: copy_name(c), then_connect: Some(target) },
                        )
                    }
                },
                None => (
                    Some(VpnStatus::Connecting(copy_name(&target))),
                    Step::Connect { server: target },
                ),
            }
        },
        VpnAction::Disconnect => match status {
            VpnStatus::Connected(n) => (
                None,
                Step::Disconnect { server: copy_name(n), then_connect: None },
            ),
            VpnStatus::Connecting(n) => (
                None,
                Step::Disconnect { server: copy_name(n), then_connect: None },
            ),
            VpnStatus::Disconnected => (None, Step::Done),
        },
        VpnAction::ToggleAutostart => (None, Step::ToggleAutostart),
        VpnAction::Quit => (None, Step::Quit),
    }
}

/// The step after `step` ended with `outcome`, and the status to show
/// (`None`: leave it).
pub fn advance(step: Step, outcome: Outcome) -> (r: (Option<VpnStatus>, Step))
    ensures
        (opt_status_view(r.0), step_view(r.1)) == spec_advance(step_view(step), outcome),
{
    match step {
        Step::Disconnect { server, then_connect: Some(target) } => match outcome {
            Outcome::Succeeded => (None, Step::Connect { server: target }),
            _ => (Some(VpnStatus::Connected(server)), Step::Done),
        },
        Step::Disconnect { server: _, then_connect: None } => match outcome {
            Outcome::Succeeded => (Some(VpnStatus::Disconnected), Step::Done),
            _ => (None, Step::Done),
        },
        Step::Connect { server } => match outcome {
            Outcome::Succeeded => (Some(VpnStatus::Connected(server)), Step::Done),
            _ => (Some(VpnStatus::Disconnected), Step::Done),
        },
        _ => (None, Step::Done),
    }
}

/// The status the poller shows after detecting `detected` (`None`: leave
/// the current one).
pub fn poll_update(current: &VpnStatus, detected: VpnStatus) -> (r: Option<VpnStatus>)
    ensures
        opt_status_view(r) == spec_poll_update(status_view(*current), status_view(detected)),
{
    let same = match (current, &detected) {
        (VpnStatus::Connecting(_), _) => {
            return None;
        },
        (VpnStatus::Disconnected, VpnStatus::Disconnected) => true,
        (VpnStatus::Connected(a), VpnStatus::Connected(b)) => *a == *b,
        _ => false,
    };
    if same {
        None
    } else {
        Some(detected)
    }
}

/// Switching servers tears the current one down first: asked to connect to
/// `target` while another server is active, the handler's first step brings
/// that server down (never brings `target` up directly), and the tray shows
/// `target` as connecting.
pub proof fn lemma_switch_tears_down_first(status: SpecStatus, target: Seq<char>)
    requires
        active_of(status) is Some,
        active_of(status) != Some(target),
    ensures
        spec_begin(status, SpecAction::Connect(target)) == (
            Some(SpecStatus::Connecting(target)),
            SpecStep::Disconnect(active_of(status)->0, Some(target)),
        ),
{
}

/// Asking to connect to the server that is already active (up or coming
/// up) does nothing.
pub proof fn lemma_reconnect_is_noop(status: SpecStatus)
    requires
        active_of(status) is Some,
    ensures
        spec_begin(status, SpecAction::Connect(active_of(status)->0)) == (
            None::<SpecStatus>,
            SpecStep::Done,
        ),
{
}

/// Disconnecting brings the active server (up or coming up) down and shows
/// `Disconnected` only once that succeeded; with no active server it does
/// nothing. The autostart and quit actions go straight to their step.
pub proof fn lemma_disconnect_action(status: SpecStatus, outcome: Outcome)
    ensures
        active_of(status) matches Some(a) ==> spec_begin(status, SpecAction::Disconnect) == (
            None::<SpecStatus>,
            SpecStep::Disconnect(a, None),
        ),
        active_of(status) is None ==> spec_begin(status, SpecAction::Disconnect) == (
            None::<SpecStatus>,
            SpecStep::Done,
        ),
        active_of(status) matches Some(a) ==> spec_advance(SpecStep::Disconnect(a, None), outcome) == (
            if outcome == Outcome::Succeeded {
                Some(SpecStatus::Disconnected)
            } else {
                None
            },
            SpecStep::Done,
        ),
        spec_begin(status, SpecAction::ToggleAutostart) == (None::<SpecStatus>, SpecStep::ToggleAutostart),
        spec_begin(status, SpecAction::Quit) == (None::<SpecStatus>, SpecStep::Quit),
{
}

/// A new server is only brought up after the old one went down: when tearing
/// it down fails, or its file is gone, the switch is abandoned and the old
/// server is shown connected again.
pub proof fn lemma_no_connect_after_failed_teardown(current: Seq<char>, target: Seq<char>, outcome: Outcome)
    ensures
        spec_advance(SpecStep::Disconnect(current, Some(target)), outcome).1 is Connect <==> outcome
            == Outcome::Succeeded,
        outcome != Outcome::Succeeded ==> spec_advance(
            SpecStep::Disconnect(current, Some(target)),
            outcome,
        ) == (Some(SpecStatus::Connected(current)), SpecStep::Done),
{
}

/// `Connecting` is transitional: once bringing a server up has ended, the
/// tray shows it connected (on success) or disconnected, never connecting.
pub proof fn lemma_connect_settles(target: Seq<char>, outcome: Outcome)
    ensures
        spec_advance(SpecStep::Connect(target), outcome) == (
            Some(
                if outcome == Outcome::Succeeded {
                    SpecStatus::Connected(target)
                } else {
                    SpecStatus::Disconnected
                },
            ),
            SpecStep::Done,
        ),
{
}

/// An action is handled in at most three steps: every chain of steps from
/// `spec_begin` reaches `Done`, `ToggleAutostart` or `Quit` after at most two
/// outcomes.
pub proof fn lemma_handler_terminates(
    status: SpecStatus,
    action: SpecAction,
    first: Outcome,
    second: Outcome,
)
    ensures
        ({
            let s1 = spec_begin(status, action).1;
            let s2 = spec_advance(s1, first).1;
            let s3 = spec_advance(s2, second).1;
            ||| s1 is Done || s1 is ToggleAutostart || s1 is Quit
            ||| s2 is Done
            ||| s3 is Done
        }),
{
}

/// The poller never overrides a transition under way, and otherwise shows
/// what it detected.
pub proof fn lemma_poll_keeps_connecting(current: SpecStatus, detected: SpecStatus)
    ensures
        current is Connecting ==> spec_poll_update(current, detected) is None,
        !(current is Connecting) && current != detected ==> spec_poll_update(current, detected)
            == Some(detected),
{
}

/// The tunnels that are up after a step, as far as the handler can know:
/// bringing `s` up adds it, bringing `s` down removes it.
pub open spec fn tunnels_after(up: Set<Seq<char>>, step: SpecStep, outcome: Outcome) -> Set<Seq<char>> {
    match (step, outcome) {
        (SpecStep::Connect(s), Outcome::Succeeded) => up.insert(s),
        (SpecStep::Disconnect(s, _), Outcome::Succeeded) => up.remove(s),
        _ => up,
    }
}

/// At most one tunnel is up after a switch: starting with at most the
/// active server up, handling `Connect(target)` leaves at most one tunnel
/// up, whatever the backend reports.
pub proof fn lemma_switch_keeps_one_tunnel(
    status: SpecStatus,
    target: Seq<char>,
    up: Set<Seq<char>>,
    first: Outcome,
    second: Outcome,
)
    requires
        match active_of(status) {
            Some(a) => up.subset_of(set![a]),
            None => up.is_empty(),
        },
    ensures
        ({
            let s1 = spec_begin(status, SpecAction::Connect(target)).1;
            let up1 = tunnels_after(up, s1, first);
            let s2 = spec_advance(s1, first).1;
            let up2 = tunnels_after(up1, s2, second);
            &&& up1.finite() && up1.len() <= 1
            &&& up2.finite() && up2.len() <= 1
        }),
{
    let s1 = spec_begin(status, SpecAction::Connect(target)).1;
    let up1 = tunnels_after(up, s1, first);
    let s2 = spec_advance(s1, first).1;
    let up2 = tunnels_after(up1, s2, second);
    match active_of(status) {
        Some(a) => {
            vstd::set_lib::lemma_len_subset(up, set![a]);
            if a == target {
                assert(up1 == up);
                assert(up2 == up);
            } else {
                if first == Outcome::Succeeded {
                    assert(up1 =~= Set::<Seq<char>>::empty()) by {
                        assert forall|x: Seq<char>| !up1.contains(x) by {
                            if up.contains(x) {
                                assert(set![a].contains(x));
                            }
                        }
                    }
                    if second == Outcome::Succeeded {
                        assert(up2 =~= set![target]);
                    } else {
                        assert(up2 == up1);
                    }
                } else {
                    assert(up1 == up);
                    assert(up2 == up1);
                }
            }
        },
        None => {
            assert(up =~= Set::<Seq<char>>::empty());
            if first == Outcome::Succeeded {
                assert(up1 =~= set![target]);
            } else {
                assert(up1 == up);
            }
            assert(up2 == up1);
        },
    }
}

/// How many times registering the tray is retried after the first attempt
/// fails (the StatusNotifierWatcher may not be up yet at login).
pub const TRAY_MAX_RETRIES: u32 = 10;

/// Seconds to wait before each retry.
pub const TRAY_RETRY_DELAY_SECS: u64 = 3;

/// What to do after registering the tray failed.
#[derive(Debug, Clone, Copy, PartialEq, Eq, Structural)]
pub enum SpawnNext {
    /// Wait, then make retry number `n` (counting from 1).
    Retry(u32),
    /// Stop trying: the program exits with an error.
    GiveUp,
}

/// The step after attempt `attempt` failed (attempt 0 is the first try,
/// attempt `n` is retry number `n`).
pub open spec fn spec_after_failed_spawn(attempt: u32) -> SpawnNext {
    if attempt < TRAY_MAX_RETRIES {
        SpawnNext::Retry((attempt + 1) as u32)
    } else {
        SpawnNext::GiveUp
    }
}

/// What to do after attempt `attempt` to register the tray failed.
pub fn after_failed_spawn(attempt: u32) -> (n: SpawnNext)
    ensures
        n == spec_after_failed_spawn(attempt),
{
    if attempt < TRAY_MAX_RETRIES {
        SpawnNext::Retry(attempt + 1)
    } else {
        SpawnNext::GiveUp
    }
}

/// How many attempts are made in all when attempt `attempt` and every one
/// after it fail.
pub open spec fn attempts_from(attempt: u32) -> nat
    decreases TRAY_MAX_RETRIES - attempt,
{
    match spec_after_failed_spawn(attempt) {
        SpawnNext::Retry(n) => 1 + attempts_from(n),
        SpawnNext::GiveUp => 1,
    }
}

/// Retries are numbered one after the other, and after the last of them
/// the handler gives up: when every attempt fails, the tray is tried once
/// and then retried `TRAY_MAX_RETRIES` times.
pub proof fn lemma_spawn_retries_bounded(attempt: u32)
    requires
        attempt <= TRAY_MAX_RETRIES,
    ensures
        spec_after_failed_spawn(attempt) matches SpawnNext::Retry(n) ==> n == attempt + 1 && n
            <= TRAY_MAX_RETRIES,
        attempt == TRAY_MAX_RETRIES ==> spec_after_failed_spawn(attempt) == SpawnNext::GiveUp,
        attempts_from(attempt) == TRAY_MAX_RETRIES - attempt + 1,
    decreases TRAY_MAX_RETRIES - attempt,
{
    if attempt < TRAY_MAX_RETRIES {
        lemma_spawn_retries_bounded((attempt + 1) as u32);
    }
}

} // verus!
