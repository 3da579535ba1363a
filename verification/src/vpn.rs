//! VPN servers and connection status: which files are servers, in what
//! order they are listed, which one is up, and the names of their units.

use std::path::PathBuf;

use vstd::prelude::*;
use vstd::seq_lib::{to_multiset_build, to_multiset_insert};

use crate::percent::{lossy_text, utf8_lossy_string};
use crate::text::{chars_of, decimal_text, digit_char, int_text, push_char, text_is};

verus! {

#[verifier::external_type_specification]
#[verifier::external_body]
pub struct ExPathBuf(PathBuf);

/// `PathBuf::clone`, which the derived `Clone` of [`Server`] calls. Nothing
/// is claimed of the copy it returns.
pub assume_specification[ <PathBuf as Clone>::clone ](p: &PathBuf) -> PathBuf;

/// Whether a tunnel is up, coming up, or down.
#[derive(Debug, Clone, PartialEq, Eq)]
pub enum VpnStatus {
    Disconnected,
    Connected(String),
    Connecting(String),
}

/// The text of a status line.
pub open spec fn spec_label(status: VpnStatus) -> Seq<char> {
    match status {
        VpnStatus::Disconnected => "Disconnected"@,
        VpnStatus::Connected(name) => "Connected ("@ + name@ + ")"@,
        VpnStatus::Connecting(name) => "Connecting ("@ + name@ + ")\u{2026}"@,
    }
}

/// The server a status refers to, if any.
pub open spec fn active_name(status: VpnStatus) -> Option<Seq<char>> {
    match status {
        VpnStatus::Connected(name) => Some(name@),
        VpnStatus::Connecting(name) => Some(name@),
        VpnStatus::Disconnected => None,
    }
}

impl VpnStatus {
    /// A human-readable status line.
    pub fn label(&self) -> (s: String)
        ensures
            s@ == spec_label(*self),
    {
        match self {
            VpnStatus::Disconnected => "Disconnected".to_string(),
            VpnStatus::Connected(name) => {
                let mut s = "Connected (".to_string();
                s.append(name.as_str());
                s.append(")");
                s
            },
            VpnStatus::Connecting(name) => {
                let mut s = "Connecting (".to_string();
                s.append(name.as_str());
                s.append(")\u{2026}");
                s
            },
        }
    }

    /// The server that is up or coming up, if any.
    pub fn active_server(&self) -> (res: Option<&str>)
        ensures
            match res {
                Some(s) => active_name(*self) == Some(s@),
                None => active_name(*self) is None,
            },
    {
        match self {
            VpnStatus::Connected(name) => Some(name.as_str()),
            VpnStatus::Connecting(name) => Some(name.as_str()),
            VpnStatus::Disconnected => None,
        }
    }
}

/// Backend used to bring a server up.
#[derive(Debug, Clone, Copy, PartialEq, Eq, Structural)]
pub enum ServerKind {
    /// AmneziaWireGuard `.conf`, managed by `awg-quick`.
    Wireguard,
    /// VLESS `.vless` share link, managed by `sing-box` in a TUN.
    Vless,
}

/// A discovered VPN server.
#[derive(Debug, Clone, PartialEq, Eq)]
pub struct Server {
    pub name: String,
    pub path: PathBuf,
    pub kind: ServerKind,
}

/// The kind of server a file with this extension describes: `.conf` is
/// WireGuard, `.vless` is VLESS, anything else is not a server.
pub open spec fn spec_server_kind(ext: Option<Seq<char>>) -> Option<ServerKind> {
    match ext {
        Some(e) => if e == "conf"@ {
            Some(ServerKind::Wireguard)
        } else if e == "vless"@ {
            Some(ServerKind::Vless)
        } else {
            None
        },
        None => None,
    }
}

/// The kind of server a file with extension `ext` describes, if any.
pub fn server_kind(ext: Option<&str>) -> (k: Option<ServerKind>)
    ensures
        k == spec_server_kind(
            match ext {
                Some(e) => Some(e@),
                None => None,
            },
        ),
{
    match ext {
        Some(e) => {
            let t = e.to_string();
            if text_is(&t, "conf") {
                Some(ServerKind::Wireguard)
            } else if text_is(&t, "vless") {
                Some(ServerKind::Vless)
            } else {
                None
            }
        },
        None => None,
    }
}

/// `a` sorts before `b`: code point by code point, a proper prefix first
/// (the order of `String`'s `Ord`).
pub open spec fn text_less(a: Seq<char>, b: Seq<char>) -> bool
    decreases a.len(),
{
    if a.len() == 0 {
        b.len() > 0
    } else if b.len() == 0 {
        false
    } else if (a[0] as u32) < (b[0] as u32) {
        true
    } else if (a[0] as u32) > (b[0] as u32) {
        false
    } else {
        text_less(a.drop_first(), b.drop_first())
    }
}

/// Whether `a` sorts before `b`.
pub fn name_less(a: &String, b: &String) -> (r: bool)
    ensures
        r == text_less(a@, b@),
{
    let x = chars_of(a.as_str());
    let y = chars_of(b.as_str());
    let mut i: usize = 0;
    assert(x@.skip(0) =~= x@);
    assert(y@.skip(0) =~= y@);
    while i < x.len() && i < y.len()
        invariant
            i <= x.len(),
            i <= y.len(),
            text_less(a@, b@) == text_less(x@.skip(i as int), y@.skip(i as int)),
            x@ == a@,
            y@ == b@,
        decreases x.len() - i,
    {
        let cx = x[i] as u32;
        assert(x@.skip(i as int)[0] == x@[i as int]);
        assert(y@.skip(i as int)[0] == y@[i as int]);
        let cy = y[i] as u32;
        if cx < cy {
            return true;
        }
        if cx > cy {
            return false;
        }
        assert(x@.skip(i as int).drop_first() =~= x@.skip(i + 1));
        assert(y@.skip(i as int).drop_first() =~= y@.skip(i + 1));
        i = i + 1;
    }
    i < y.len()
}

/// `s` with `x` placed before the first server whose name sorts after it.
pub open spec fn insert_by_name(s: Seq<Server>, x: Server) -> Seq<Server>
    decreases s.len(),
{
    if s.len() == 0 {
        seq![x]
    } else if text_less(x.name@, s[0].name@) {
        seq![x] + s
    } else {
        seq![s[0]] + insert_by_name(s.drop_first(), x)
    }
}

/// `s` sorted by name, servers with equal names kept in their order.
pub open spec fn sorted_by_name(s: Seq<Server>) -> Seq<Server>
    decreases s.len(),
{
    if s.len() == 0 {
        seq![]
    } else {
        insert_by_name(sorted_by_name(s.drop_last()), s.last())
    }
}

/// Inserts `x` into `v` before the first server whose name sorts after it.
fn insert_server(v: &mut Vec<Server>, x: Server)
    ensures
        final(v)@ == insert_by_name(old(v)@, x),
{
    let mut i: usize = 0;
    assert(v@.skip(0) =~= v@);
    assert(v@.take(0) + insert_by_name(v@, x) =~= insert_by_name(v@, x));
    while i < v.len() && !name_less(&x.name, &v[i].name)
        invariant
            i <= v.len(),
            v@ == old(v)@,
            insert_by_name(v@, x) == v@.take(i as int) + insert_by_name(v@.skip(i as int), x),
        decreases v.len() - i,
    {
        let ghost rest = v@.skip(i as int);
        assert(rest.drop_first() =~= v@.skip(i + 1));
        assert(v@.take(i + 1) =~= v@.take(i as int).push(v@[i as int]));
        assert(v@.take(i as int) + insert_by_name(rest, x) =~= v@.take(i + 1) + insert_by_name(
            v@.skip(i + 1),
            x,
        ));
        i = i + 1;
    }
    let ghost before = v@;
    v.insert(i, x);
    assert(v@ =~= before.take(i as int) + insert_by_name(before.skip(i as int), x));
}

/// The servers sorted by name; servers with equal names keep their order.
pub fn sort_servers(servers: Vec<Server>) -> (r: Vec<Server>)
    ensures
        r@ == sorted_by_name(servers@),
{
    let mut out: Vec<Server> = Vec::new();
    let mut rest = servers;
    let ghost all = rest@;
    let mut taken: Vec<Server> = Vec::new();
    let mut i: usize = 0;
    let n = rest.len();
    // Move the servers out in order, remembering them reversed.
    while rest.len() > 0
        invariant
            rest@.len() + taken@.len() == n,
            all.len() == n,
            rest@ == all.take(rest@.len() as int),
            forall|j: int| 0 <= j < taken@.len() ==> taken@[j] == all[n - 1 - j],
        decreases rest.len(),
    {
        let x = rest.pop().unwrap();
        taken.push(x);
        assert(rest@ =~= all.take(rest@.len() as int));
    }
    assert(all.take(0) =~= Seq::<Server>::empty());
    while taken.len() > 0
        invariant
            taken@.len() <= n,
            all.len() == n,
            forall|j: int| 0 <= j < taken@.len() ==> taken@[j] == all[n - 1 - j],
            out@ == sorted_by_name(all.take(n - taken@.len())),
        decreases taken.len(),
    {
        let k = n - taken.len();
        let x = taken.pop().unwrap();
        assert(x == all[k as int]);
        assert(all.take(k + 1).drop_last() =~= all.take(k as int));
        insert_server(&mut out, x);
    }
    assert(all.take(n as int) =~= all);
    out
}

/// The first server named `name`, if there is one.
pub open spec fn spec_find_server(servers: Seq<Server>, name: Seq<char>) -> Option<Server>
    decreases servers.len(),
{
    if servers.len() == 0 {
        None
    } else if servers[0].name@ == name {
        Some(servers[0])
    } else {
        spec_find_server(servers.drop_first(), name)
    }
}

/// Look up a single server by name among the discovered ones.
pub fn find_server(servers: Vec<Server>, name: &str) -> (r: Option<Server>)
    ensures
        r == spec_find_server(servers@, name@),
{
    let target = name.to_string();
    let mut rest = servers;
    let ghost all = rest@;
    let mut i: usize = 0;
    let n = rest.len();
    assert(all.skip(0) =~= all);
    while i < n
        invariant
            i <= n,
            rest@.len() == n,
            rest@ == all,
            all == servers@,
            target@ == name@,
            spec_find_server(all, name@) == spec_find_server(all.skip(i as int), name@),
        decreases n - i,
    {
        assert(all.skip(i as int).drop_first() =~= all.skip(i + 1));
        if rest[i].name == target {
            assert(all.skip(i as int)[0] == all[i as int]);
            return Some(rest.swap_remove(i));
        }
        i = i + 1;
    }
    None
}

/// The status that the probes give: the first server (in the listed order)
/// that was found up is the connected one. `up[i]` is the probe of
/// `servers[i]`; servers past the probes were not probed.
pub open spec fn spec_detect_status(servers: Seq<Server>, up: Seq<bool>) -> Option<Seq<char>>
    decreases up.len(),
{
    if up.len() == 0 || servers.len() == 0 {
        None
    } else if up[0] {
        Some(servers[0].name@)
    } else {
        spec_detect_status(servers.drop_first(), up.drop_first())
    }
}

/// Determine which server (if any) is currently active, from the probes of
/// the servers in order.
pub fn detect_status(servers: &Vec<Server>, up: &Vec<bool>) -> (s: VpnStatus)
    ensures
        match s {
            VpnStatus::Connected(name) => spec_detect_status(servers@, up@) == Some(name@),
            VpnStatus::Disconnected => spec_detect_status(servers@, up@) is None,
            VpnStatus::Connecting(_) => false,
        },
{
    let mut i: usize = 0;
    assert(servers@.skip(0) =~= servers@);
    assert(up@.skip(0) =~= up@);
    while i < servers.len() && i < up.len()
        invariant
            i <= servers.len(),
            i <= up.len(),
            spec_detect_status(servers@, up@) == spec_detect_status(
                servers@.skip(i as int),
                up@.skip(i as int),
            ),
        decreases up.len() - i,
    {
        assert(servers@.skip(i as int).drop_first() =~= servers@.skip(i + 1));
        assert(up@.skip(i as int).drop_first() =~= up@.skip(i + 1));
        if up[i] {
            return VpnStatus::Connected(servers[i].name.clone());
        }
        i = i + 1;
    }
    VpnStatus::Disconnected
}

/// The first server found up is the connected one, wherever it stands in
/// the list.
pub proof fn lemma_first_up_is_connected(servers: Seq<Server>, up: Seq<bool>, i: int)
    requires
        0 <= i < servers.len(),
        i < up.len(),
        up[i],
        forall|j: int| 0 <= j < i ==> !up[j],
    ensures
        spec_detect_status(servers, up) == Some(servers[i].name@),
    decreases i,
{
    if i > 0 {
        assert(!up[0]);
        assert forall|j: int| 0 <= j < i - 1 implies !up.drop_first()[j] by {
            assert(up.drop_first()[j] == up[j + 1]);
        }
        lemma_first_up_is_connected(servers.drop_first(), up.drop_first(), i - 1);
        assert(servers.drop_first()[i - 1] == servers[i]);
    }
}

/// When no probed server was found up, the status is disconnected; and a
/// connected server is always one that was found up.
pub proof fn lemma_detected_was_up(servers: Seq<Server>, up: Seq<bool>)
    ensures
        (forall|j: int| 0 <= j < servers.len() && j < up.len() ==> !up[j]) ==> spec_detect_status(
            servers,
            up,
        ) is None,
        spec_detect_status(servers, up) matches Some(n) ==> exists|i: int|
            0 <= i < servers.len() && i < up.len() && up[i] && #[trigger] servers[i].name@ == n,
    decreases up.len(),
{
    if up.len() > 0 && servers.len() > 0 {
        lemma_detected_was_up(servers.drop_first(), up.drop_first());
        if (forall|j: int| 0 <= j < servers.len() && j < up.len() ==> !up[j]) {
            assert(!up[0]);
            assert forall|j: int|
                0 <= j < servers.drop_first().len() && j < up.drop_first().len() implies !up.drop_first()[j] by {
                assert(up.drop_first()[j] == up[j + 1]);
            }
        }
        if !up[0] {
            if let Some(n) = spec_detect_status(servers, up) {
                let k = choose|k: int|
                    0 <= k < servers.drop_first().len() && k < up.drop_first().len()
                        && up.drop_first()[k] && #[trigger] servers.drop_first()[k].name@ == n;
                assert(servers[k + 1] == servers.drop_first()[k]);
                assert(up[k + 1] == up.drop_first()[k]);
            }
        }
    }
}

/// The address dialled is the first IPv4 candidate when there is one, else
/// the first candidate; there is none only when there are no candidates.
pub proof fn lemma_preferred_address(c: Seq<(Seq<char>, bool)>)
    ensures
        c.len() == 0 ==> spec_preferred_address(c) is None,
        forall|i: int|
            0 <= i < c.len() && c[i].1 && (forall|j: int| 0 <= j < i ==> !c[j].1)
                ==> spec_preferred_address(c) == Some(#[trigger] c[i].0),
        c.len() > 0 && (forall|j: int| 0 <= j < c.len() ==> !c[j].1) ==> spec_preferred_address(c)
            == Some(c[0].0),
{
    lemma_first_v4(c);
}

proof fn lemma_first_v4(c: Seq<(Seq<char>, bool)>)
    ensures
        forall|i: int|
            0 <= i < c.len() && c[i].1 && (forall|j: int| 0 <= j < i ==> !c[j].1) ==> first_v4(c)
                == Some(#[trigger] c[i].0),
        (forall|j: int| 0 <= j < c.len() ==> !c[j].1) ==> first_v4(c) is None,
    decreases c.len(),
{
    if c.len() > 0 {
        let t = c.drop_first();
        lemma_first_v4(t);
        assert forall|i: int|
            0 <= i < c.len() && c[i].1 && (forall|j: int| 0 <= j < i ==> !c[j].1) implies first_v4(c)
                == Some(#[trigger] c[i].0) by {
            if i > 0 {
                assert(!c[0].1);
                assert(t[i - 1] == c[i]);
                assert forall|j: int| 0 <= j < i - 1 implies !t[j].1 by {
                    assert(t[j] == c[j + 1]);
                }
            }
        }
        if forall|j: int| 0 <= j < c.len() ==> !c[j].1 {
            assert(!c[0].1);
            assert forall|j: int| 0 <= j < t.len() implies !t[j].1 by {
                assert(t[j] == c[j + 1]);
            }
        }
    }
}

/// A negative exit code is written with a `-`; the digits after it (or the
/// whole numeral, for a code that is not negative) spell its magnitude.
pub proof fn lemma_int_text(i: int)
    ensures
        i >= 0 ==> crate::vless::all_digits(int_text(i)) && crate::vless::decimal_value(
            int_text(i),
        ) == i && int_text(i).len() > 0,
        i < 0 ==> int_text(i)[0] == '-' && crate::vless::all_digits(int_text(i).skip(1))
            && crate::vless::decimal_value(int_text(i).skip(1)) == -i && int_text(i).len() > 1,
{
    if i >= 0 {
        crate::vless::lemma_decimal_text(i as nat);
    } else {
        crate::vless::lemma_decimal_text((-i) as nat);
        assert(int_text(i).skip(1) =~= decimal_text((-i) as nat));
    }
}

/// Which server to probe next, given the probes so far: the next one in
/// order, until one was found up or every server was probed.
pub open spec fn spec_next_probe(servers: Seq<Server>, up: Seq<bool>) -> Option<int> {
    if up.contains(true) || up.len() >= servers.len() {
        None
    } else {
        Some(up.len() as int)
    }
}

/// The index of the server to probe next, or `None` when probing is done.
pub fn next_probe(servers: &Vec<Server>, up: &Vec<bool>) -> (r: Option<usize>)
    ensures
        match r {
            Some(i) => spec_next_probe(servers@, up@) == Some(i as int),
            None => spec_next_probe(servers@, up@) is None,
        },
{
    let mut i: usize = 0;
    while i < up.len()
        invariant
            i <= up.len(),
            forall|j: int| 0 <= j < i ==> !up@[j],
        decreases up.len() - i,
    {
        if up[i] {
            assert(up@.contains(true)) by {
                assert(up@[i as int] == true);
            }
            return None;
        }
        i = i + 1;
    }
    assert(!up@.contains(true));
    if up.len() >= servers.len() {
        None
    } else {
        Some(up.len())
    }
}

/// Probing can stop once a server was found up: the status is then the same
/// as if every remaining server had been probed too, whatever those probes
/// would give.
pub proof fn lemma_probing_stops_early(servers: Seq<Server>, up: Seq<bool>, rest: Seq<bool>)
    requires
        spec_next_probe(servers, up) is None,
    ensures
        spec_detect_status(servers, up + rest) == spec_detect_status(servers, up),
    decreases up.len(),
{
    if up.len() > 0 && servers.len() > 0 && !up[0] {
        let tail = up.drop_first();
        assert((up + rest).drop_first() =~= tail + rest);
        assert((up + rest)[0] == up[0]);
        assert(tail.contains(true) || tail.len() >= servers.drop_first().len()) by {
            if up.contains(true) {
                let k = choose|k: int| 0 <= k < up.len() && up[k] == true;
                assert(tail[k - 1] == true);
            }
        }
        lemma_probing_stops_early(servers.drop_first(), tail, rest);
    } else if up.len() > 0 && servers.len() > 0 {
        assert((up + rest)[0] == up[0]);
    } else if up.len() == 0 {
        assert(!up.contains(true));
        assert(up + rest =~= rest);
    }
}

/// The characters systemd allows in a unit name are kept, every other one
/// becomes `-`.
pub open spec fn unit_char(c: char) -> char {
    let u = c as u32;
    if (0x30 <= u <= 0x39) || (0x41 <= u <= 0x5a) || (0x61 <= u <= 0x7a) || c == '-' || c == '_'
        || c == '.' {
        c
    } else {
        '-'
    }
}

/// systemd unit name for a VLESS server.
pub open spec fn spec_vless_unit(name: Seq<char>) -> Seq<char> {
    "awg-vless-"@ + name.map_values(|c: char| unit_char(c))
}

/// systemd unit name for a VLESS server. Sanitised to the chars systemd allows.
pub fn vless_unit(name: &str) -> (u: String)
    ensures
        u@ == spec_vless_unit(name@),
{
    let chars = chars_of(name);
    let mut u = "awg-vless-".to_string();
    let ghost prefix = u@;
    let mut i: usize = 0;
    while i < chars.len()
        invariant
            i <= chars.len(),
            chars@ == name@,
            u@ == prefix + name@.take(i as int).map_values(|c: char| unit_char(c)),
        decreases chars.len() - i,
    {
        let c = chars[i];
        let cu = c as u32;
        let keep = (0x30 <= cu && cu <= 0x39) || (0x41 <= cu && cu <= 0x5a) || (0x61 <= cu && cu
            <= 0x7a) || c == '-' || c == '_' || c == '.';
        if keep {
            push_char(&mut u, c);
        } else {
            push_char(&mut u, '-');
        }
        i = i + 1;
        assert(u@ =~= prefix + name@.take(i as int).map_values(|c: char| unit_char(c)));
    }
    assert(name@.take(i as int) =~= name@);
    u
}

/// The first IPv4 address among the candidates, if any.
pub open spec fn first_v4(c: Seq<(Seq<char>, bool)>) -> Option<Seq<char>>
    decreases c.len(),
{
    if c.len() == 0 {
        None
    } else if c[0].1 {
        Some(c[0].0)
    } else {
        first_v4(c.drop_first())
    }
}

/// The resolved address to dial: the first IPv4 one, else the first one.
pub open spec fn spec_preferred_address(c: Seq<(Seq<char>, bool)>) -> Option<Seq<char>> {
    match first_v4(c) {
        Some(a) => Some(a),
        None => if c.len() > 0 {
            Some(c[0].0)
        } else {
            None
        },
    }
}

/// The text of each candidate address with whether it is IPv4.
pub open spec fn candidates_text(c: Seq<(String, bool)>) -> Seq<(Seq<char>, bool)> {
    c.map_values(|x: (String, bool)| (x.0@, x.1))
}

/// Picks the address to dial among the resolved `(address, is_ipv4)`
/// candidates, preferring IPv4. `None` when there are none.
pub fn preferred_address(candidates: &Vec<(String, bool)>) -> (r: Option<String>)
    ensures
        match r {
            Some(s) => spec_preferred_address(candidates_text(candidates@)) == Some(s@),
            None => spec_preferred_address(candidates_text(candidates@)) is None,
        },
{
    let ghost c = candidates_text(candidates@);
    let mut i: usize = 0;
    assert(c.skip(0) =~= c);
    while i < candidates.len()
        invariant
            i <= candidates.len(),
            c == candidates_text(candidates@),
            first_v4(c) == first_v4(c.skip(i as int)),
        decreases candidates.len() - i,
    {
        assert(c.skip(i as int).drop_first() =~= c.skip(i + 1));
        assert(c.skip(i as int)[0] == c[i as int]);
        if candidates[i].1 {
            return Some(candidates[i].0.clone());
        }
        i = i + 1;
    }
    assert(c.skip(i as int) =~= Seq::<(Seq<char>, bool)>::empty());
    if candidates.len() > 0 {
        Some(candidates[0].0.clone())
    } else {
        None
    }
}

/// The name of the file holding a VLESS server's generated configuration.
pub open spec fn spec_vless_config_file(name: Seq<char>) -> Seq<char> {
    name + ".json"@
}

/// The name of the file holding a VLESS server's generated configuration.
pub fn vless_config_file(name: &str) -> (f: String)
    ensures
        f@ == spec_vless_config_file(name@),
{
    let mut f = name.to_string();
    f.append(".json");
    f
}

/// The command that runs sing-box with configuration `config` as the
/// transient system unit `unit`, restarted on failure, so that the tunnel
/// outlives the tray like a kernel WireGuard interface does.
pub open spec fn spec_vless_launch_args(unit: Seq<char>, config: Seq<char>) -> Seq<Seq<char>> {
    seq![
        "systemd-run"@,
        "--unit="@ + unit,
        "--collect"@,
        "--property=Restart=on-failure"@,
        "sing-box"@,
        "run"@,
        "-c"@,
        config,
    ]
}

/// The arguments (after `sudo`) that start a VLESS server's unit.
pub fn vless_launch_args(unit: &str, config: &str) -> (args: Vec<String>)
    ensures
        crate::text::texts_of(args@) == spec_vless_launch_args(unit@, config@),
{
    let mut args: Vec<String> = Vec::new();
    args.push("systemd-run".to_string());
    let mut u = "--unit=".to_string();
    u.append(unit);
    args.push(u);
    args.push("--collect".to_string());
    args.push("--property=Restart=on-failure".to_string());
    args.push("sing-box".to_string());
    args.push("run".to_string());
    args.push("-c".to_string());
    args.push(config.to_string());
    assert(crate::text::texts_of(args@) =~= spec_vless_launch_args(unit@, config@));
    args
}

/// No text sorts before itself.
pub proof fn lemma_text_less_irreflexive(a: Seq<char>)
    ensures
        !text_less(a, a),
    decreases a.len(),
{
    if a.len() > 0 {
        lemma_text_less_irreflexive(a.drop_first());
    }
}

/// The order of texts is transitive.
pub proof fn lemma_text_less_transitive(a: Seq<char>, b: Seq<char>, c: Seq<char>)
    requires
        text_less(a, b),
        text_less(b, c),
    ensures
        text_less(a, c),
    decreases a.len(),
{
    if a.len() > 0 && b.len() > 0 && c.len() > 0 {
        if (a[0] as u32) == (b[0] as u32) && (b[0] as u32) == (c[0] as u32) {
            lemma_text_less_transitive(a.drop_first(), b.drop_first(), c.drop_first());
        }
    }
}

/// Of two different texts, one sorts before the other.
pub proof fn lemma_text_less_total(a: Seq<char>, b: Seq<char>)
    ensures
        a == b || text_less(a, b) || text_less(b, a),
    decreases a.len(),
{
    if a.len() > 0 && b.len() > 0 {
        if (a[0] as u32) == (b[0] as u32) {
            lemma_text_less_total(a.drop_first(), b.drop_first());
            if a.drop_first() == b.drop_first() {
                vstd::utf8::char_u32_cast(a[0], a[0] as u32);
                vstd::utf8::char_u32_cast(b[0], b[0] as u32);
                assert(a[0] == b[0]);
                assert(a.drop_first().len() == a.len() - 1);
                assert(b.drop_first().len() == b.len() - 1);
                assert(a.len() == b.len());
                assert forall|i: int| 0 <= i < a.len() implies a[i] == b[i] by {
                    if i > 0 {
                        assert(a[i] == a.drop_first()[i - 1]);
                        assert(b[i] == b.drop_first()[i - 1]);
                    }
                }
                assert(a =~= b);
            }
        }
    } else if a.len() == 0 && b.len() == 0 {
        assert(a =~= b);
    }
}

/// Servers in name order: none sorts before one listed ahead of it.
pub open spec fn is_sorted_by_name(s: Seq<Server>) -> bool {
    forall|i: int, j: int| 0 <= i < j < s.len() ==> !text_less(s[j].name@, s[i].name@)
}

/// Where `insert_by_name` puts `x`.
pub open spec fn insert_pos(s: Seq<Server>, x: Server) -> int
    decreases s.len(),
{
    if s.len() == 0 {
        0
    } else if text_less(x.name@, s[0].name@) {
        0
    } else {
        1 + insert_pos(s.drop_first(), x)
    }
}

proof fn lemma_insert_by_name(s: Seq<Server>, x: Server)
    ensures
        0 <= insert_pos(s, x) <= s.len(),
        insert_by_name(s, x) == s.insert(insert_pos(s, x), x),
        forall|k: int| 0 <= k < insert_pos(s, x) ==> !text_less(x.name@, #[trigger] s[k].name@),
        insert_pos(s, x) < s.len() ==> text_less(x.name@, s[insert_pos(s, x)].name@),
    decreases s.len(),
{
    if s.len() > 0 && !text_less(x.name@, s[0].name@) {
        let t = s.drop_first();
        lemma_insert_by_name(t, x);
        assert(seq![s[0]] + t.insert(insert_pos(t, x), x) =~= s.insert(insert_pos(s, x), x));
        assert forall|k: int| 0 <= k < insert_pos(s, x) implies !text_less(
            x.name@,
            #[trigger] s[k].name@,
        ) by {
            if k > 0 {
                assert(s[k] == t[k - 1]);
            }
        }
    } else if s.len() > 0 {
        assert(seq![x] + s =~= s.insert(0, x));
    } else {
        assert(seq![x] =~= s.insert(0, x));
    }
}

proof fn lemma_insert_keeps_sorted(s: Seq<Server>, x: Server)
    requires
        is_sorted_by_name(s),
    ensures
        is_sorted_by_name(insert_by_name(s, x)),
        insert_by_name(s, x).to_multiset() == s.to_multiset().insert(x),
{
    lemma_insert_by_name(s, x);
    let p = insert_pos(s, x);
    let r = s.insert(p, x);
    to_multiset_insert(s, p, x);
    assert forall|i: int, j: int| 0 <= i < j < r.len() implies !text_less(
        r[j].name@,
        r[i].name@,
    ) by {
        if i == p {
            // r[j] = s[j - 1] with j - 1 >= p
            if p < s.len() {
                if text_less(s[j - 1].name@, x.name@) {
                    if j - 1 > p {
                        lemma_text_less_transitive(s[j - 1].name@, x.name@, s[p].name@);
                    } else {
                        lemma_text_less_transitive(s[p].name@, x.name@, s[p].name@);
                        lemma_text_less_irreflexive(s[p].name@);
                    }
                }
            }
        } else if j == p {
            assert(r[i] == s[i]);
            lemma_text_less_total(x.name@, s[i].name@);
            if text_less(x.name@, s[i].name@) {
            }
        } else {
            let si = if i < p {
                i
            } else {
                i - 1
            };
            let sj = if j < p {
                j
            } else {
                j - 1
            };
            assert(r[i] == s[si]);
            assert(r[j] == s[sj]);
        }
    }
}

/// Sorting by name gives the same servers, in name order.
pub proof fn lemma_sorted_by_name(s: Seq<Server>)
    ensures
        is_sorted_by_name(sorted_by_name(s)),
        sorted_by_name(s).to_multiset() == s.to_multiset(),
    decreases s.len(),
{
    if s.len() > 0 {
        lemma_sorted_by_name(s.drop_last());
        lemma_insert_keeps_sorted(sorted_by_name(s.drop_last()), s.last());
        to_multiset_build(s.drop_last(), s.last());
        assert(s.drop_last().push(s.last()) =~= s);
    } else {
        assert(sorted_by_name(s) =~= s);
    }
}

/// The server found has the name asked for and is one of the servers;
/// nothing is found only when no server has that name.
pub proof fn lemma_find_server(servers: Seq<Server>, name: Seq<char>)
    ensures
        spec_find_server(servers, name) matches Some(x) ==> x.name@ == name && servers.contains(x),
        spec_find_server(servers, name) is None ==> forall|i: int|
            0 <= i < servers.len() ==> (#[trigger] servers[i]).name@ != name,
    decreases servers.len(),
{
    if servers.len() > 0 {
        lemma_find_server(servers.drop_first(), name);
        if servers[0].name@ != name {
            if let Some(x) = spec_find_server(servers, name) {
                let k = choose|k: int|
                    0 <= k < servers.drop_first().len() && servers.drop_first()[k] == x;
                assert(servers[k + 1] == x);
            }
            assert forall|i: int| 0 <= i < servers.len() && spec_find_server(servers, name) is None
                implies (#[trigger] servers[i]).name@ != name by {
                if i > 0 {
                    assert(servers[i] == servers.drop_first()[i - 1]);
                }
            }
        } else {
            assert(servers[0] == servers[0]);
        }
    }
}

/// A unit name keeps every ASCII letter, digit, `-`, `_` and `.` of the
/// server name where it stands, and puts `-` for every other character.
pub proof fn lemma_vless_unit_keeps(name: Seq<char>, i: int)
    requires
        0 <= i < name.len(),
    ensures
        ({
            let u = name[i] as u32;
            (0x30 <= u <= 0x39) || (0x41 <= u <= 0x5a) || (0x61 <= u <= 0x7a) || u == 0x2d || u
                == 0x5f || u == 0x2e
        }) ==> spec_vless_unit(name)[10 + i] == name[i],
        !({
            let u = name[i] as u32;
            (0x30 <= u <= 0x39) || (0x41 <= u <= 0x5a) || (0x61 <= u <= 0x7a) || u == 0x2d || u
                == 0x5f || u == 0x2e
        }) ==> spec_vless_unit(name)[10 + i] == '-',
{
    reveal_strlit("awg-vless-");
    assert(spec_vless_unit(name)[10 + i] == unit_char(name[i]));
    vstd::utf8::char_u32_cast(name[i], name[i] as u32);
    assert('-' as u32 == 0x2d);
    assert('_' as u32 == 0x5f);
    assert('.' as u32 == 0x2e);
}

/// Unit names are `awg-vless-` followed by one character per character of
/// the server name, each an ASCII letter, digit, `-`, `_` or `.`.
pub proof fn lemma_vless_unit_chars(name: Seq<char>)
    ensures
        spec_vless_unit(name).len() == 10 + name.len(),
        spec_vless_unit(name).take(10) == "awg-vless-"@,
        forall|i: int|
            10 <= i < spec_vless_unit(name).len() ==> {
                let u = (#[trigger] spec_vless_unit(name)[i]) as u32;
                (0x30 <= u <= 0x39) || (0x41 <= u <= 0x5a) || (0x61 <= u <= 0x7a) || u == 0x2d
                    || u == 0x5f || u == 0x2e
            },
{
    reveal_strlit("awg-vless-");
    let u = spec_vless_unit(name);
    assert(u.take(10) =~= "awg-vless-"@);
    assert forall|i: int| 10 <= i < u.len() implies {
        let c = (#[trigger] u[i]) as u32;
        (0x30 <= c <= 0x39) || (0x41 <= c <= 0x5a) || (0x61 <= c <= 0x7a) || c == 0x2d || c
            == 0x5f || c == 0x2e
    } by {
        assert(u[i] == unit_char(name[i - 10]));
    }
}

/// The decimal numeral of `i`.
fn int_string(i: i32) -> (s: String)
    ensures
        s@ == int_text(i as int),
{
    let negative = i < 0;
    let mut n: u64 = if negative {
        (0i64 - (i as i64)) as u64
    } else {
        i as u64
    };
    let ghost whole = n as nat;
    let mut digits: Vec<char> = Vec::new();
    while n >= 10
        invariant
            decimal_text(whole) == decimal_text(n as nat) + digits@,
        decreases n,
    {
        let d = n % 10;
        let c = ((0x30 + d) as u8) as char;
        assert(c == digit_char(d as nat));
        let ghost before = digits@;
        digits.insert(0, c);
        assert(decimal_text(n as nat) == decimal_text((n / 10) as nat).push(c));
        assert(decimal_text((n / 10) as nat).push(c) + before =~= decimal_text((n / 10) as nat)
            + digits@);
        n = n / 10;
    }
    let c = ((0x30 + n) as u8) as char;
    assert(c == digit_char(n as nat));
    digits.insert(0, c);
    let mut s = if negative {
        "-".to_string()
    } else {
        String::new()
    };
    let ghost prefix = s@;
    let mut k: usize = 0;
    while k < digits.len()
        invariant
            k <= digits.len(),
            s@ == prefix + digits@.take(k as int),
        decreases digits.len() - k,
    {
        push_char(&mut s, digits[k]);
        k = k + 1;
        assert(s@ =~= prefix + digits@.take(k as int));
    }
    assert(digits@.take(k as int) =~= digits@);
    proof {
        reveal_strlit("-");
        if negative {
            assert(prefix == seq!['-']);
        } else {
            assert(prefix =~= Seq::<char>::empty());
            assert(s@ =~= digits@);
        }
    }
    s
}

/// The error a backend command reports when it fails: the command, its exit
/// code (`-1` when it was ended by a signal and has none) and its error
/// output read as UTF-8.
pub open spec fn spec_backend_failure(command: Seq<char>, code: Option<i32>, stderr: Seq<char>) -> Seq<char> {
    command + " failed (exit "@ + int_text(
        match code {
            Some(c) => c as int,
            None => -1,
        },
    ) + "): "@ + stderr
}

/// The error message for a failed backend command, from its exit code and
/// the bytes it wrote to standard error.
pub fn backend_failure(command: &str, code: Option<i32>, stderr: &[u8]) -> (s: String)
    ensures
        s@ == spec_backend_failure(command@, code, lossy_text(stderr@)),
{
    let mut s = command.to_string();
    s.append(" failed (exit ");
    let c: i32 = match code {
        Some(c) => c,
        None => -1,
    };
    let n = int_string(c);
    s.append(n.as_str());
    s.append("): ");
    let e = utf8_lossy_string(stderr);
    s.append(e.as_str());
    s
}

} // verus!
