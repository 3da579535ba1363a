//! Application settings: where the server files live, how often the status
//! is polled, and which applications may bypass the tunnel.

use std::path::PathBuf;

use vstd::prelude::*;

use crate::text::texts_of;

verus! {

/// An application whose traffic can bypass the tunnel (VLESS mode only).
/// Matched by executable name via sing-box `process_name` route rules.
#[derive(Debug, Clone, PartialEq, Eq)]
pub struct BypassApp {
    /// Label shown in the tray menu.
    pub name: String,
    /// Executable names as the kernel sees them (e.g. `steam`, `qbittorrent`).
    pub processes: Vec<String>,
    /// Whether this app's traffic currently goes direct, outside the tunnel.
    pub enabled: bool,
}

/// The text of a bypass entry.
pub struct SpecBypassApp {
    pub name: Seq<char>,
    pub processes: Seq<Seq<char>>,
    pub enabled: bool,
}

impl View for BypassApp {
    type V = SpecBypassApp;

    open spec fn view(&self) -> SpecBypassApp {
        SpecBypassApp { name: self.name@, processes: texts_of(self.processes@), enabled: self.enabled }
    }
}

/// The application settings.
#[derive(Debug)]
pub struct AppConfig {
    pub config_dir: PathBuf,
    pub poll_interval_secs: u64,
    /// Apps that may be routed around the tunnel; toggled from the tray menu.
    pub bypass_apps: Vec<BypassApp>,
}

/// The settings a config file gives; a field it leaves out is `None`.
#[derive(Debug)]
pub struct ConfigFile {
    pub config_dir: Option<PathBuf>,
    pub poll_interval_secs: Option<u64>,
    pub bypass_apps: Option<Vec<BypassApp>>,
}

/// The text of each bypass entry.
pub open spec fn apps_view(apps: Seq<BypassApp>) -> Seq<SpecBypassApp> {
    apps.map_values(|a: BypassApp| a@)
}

/// The names of the bypass entries.
pub open spec fn app_names(apps: Seq<SpecBypassApp>) -> Seq<Seq<char>> {
    apps.map_values(|a: SpecBypassApp| a.name)
}

/// A bypass entry that starts disabled.
pub open spec fn disabled_app(name: Seq<char>, processes: Seq<Seq<char>>) -> SpecBypassApp {
    SpecBypassApp { name, processes, enabled: false }
}

/// The bypass entries offered out of the box, all disabled.
pub open spec fn spec_default_bypass_apps() -> Seq<SpecBypassApp> {
    seq![
        disabled_app("Steam"@, seq!["steam"@, "steamwebhelper"@]),
        disabled_app("qBittorrent"@, seq!["qbittorrent"@, "qbittorrent-nox"@]),
        disabled_app(
            "Transmission"@,
            seq![
                "transmission-gtk"@,
                "transmission-qt"@,
                "transmission-daemon"@,
                "transmission-cli"@,
            ],
        ),
    ]
}

/// The entries with the first one named `name` switched over; unchanged
/// when there is none.
pub open spec fn spec_toggle(apps: Seq<SpecBypassApp>, name: Seq<char>) -> Seq<SpecBypassApp> {
    match app_names(apps).index_of_first(name) {
        Some(i) => apps.update(i, SpecBypassApp { enabled: !apps[i].enabled, ..apps[i] }),
        None => apps,
    }
}

/// The process names of the enabled entries, in order.
pub open spec fn spec_enabled_processes(apps: Seq<SpecBypassApp>) -> Seq<Seq<char>>
    decreases apps.len(),
{
    if apps.len() == 0 {
        seq![]
    } else {
        spec_enabled_processes(apps.drop_last()) + if apps.last().enabled {
            apps.last().processes
        } else {
            seq![]
        }
    }
}

/// The poll interval when the config file gives none.
pub fn default_poll_interval_secs() -> (s: u64)
    ensures
        s == 5,
{
    5
}

/// A disabled bypass entry.
fn app(name: &str, processes: Vec<String>) -> (a: BypassApp)
    ensures
        a@ == disabled_app(name@, texts_of(processes@)),
{
    BypassApp { name: name.to_string(), processes, enabled: false }
}

/// The bypass entries offered when the config file gives none.
pub fn default_bypass_apps() -> (apps: Vec<BypassApp>)
    ensures
        apps_view(apps@) == spec_default_bypass_apps(),
{
    let mut steam: Vec<String> = Vec::new();
    steam.push("steam".to_string());
    steam.push("steamwebhelper".to_string());
    assert(texts_of(steam@) =~= seq!["steam"@, "steamwebhelper"@]);
    let mut qbt: Vec<String> = Vec::new();
    qbt.push("qbittorrent".to_string());
    qbt.push("qbittorrent-nox".to_string());
    assert(texts_of(qbt@) =~= seq!["qbittorrent"@, "qbittorrent-nox"@]);
    let mut tr: Vec<String> = Vec::new();
    tr.push("transmission-gtk".to_string());
    tr.push("transmission-qt".to_string());
    tr.push("transmission-daemon".to_string());
    tr.push("transmission-cli".to_string());
    assert(texts_of(tr@) =~= seq![
        "transmission-gtk"@,
        "transmission-qt"@,
        "transmission-daemon"@,
        "transmission-cli"@,
    ]);
    let mut apps: Vec<BypassApp> = Vec::new();
    apps.push(app("Steam", steam));
    apps.push(app("qBittorrent", qbt));
    apps.push(app("Transmission", tr));
    assert(apps_view(apps@) =~= spec_default_bypass_apps());
    apps
}

impl AppConfig {
    /// The settings: those the config file gives, defaults for the rest
    /// (`default_dir`, a 5 s poll interval, the built-in bypass entries).
    /// `file` is `None` when there is no readable, valid config file, and
    /// then every setting is the default.
    pub fn load(default_dir: PathBuf, file: Option<ConfigFile>) -> (c: AppConfig)
        ensures
            c.config_dir == (match file {
                Some(f) => match f.config_dir {
                    Some(d) => d,
                    None => default_dir,
                },
                None => default_dir,
            }),
            c.poll_interval_secs == (match file {
                Some(f) => match f.poll_interval_secs {
                    Some(p) => p,
                    None => 5,
                },
                None => 5,
            }),
            apps_view(c.bypass_apps@) == (match file {
                Some(f) => match f.bypass_apps {
                    Some(a) => apps_view(a@),
                    None => spec_default_bypass_apps(),
                },
                None => spec_default_bypass_apps(),
            }),
    {
        match file {
            Some(f) => AppConfig {
                config_dir: match f.config_dir {
                    Some(d) => d,
                    None => default_dir,
                },
                poll_interval_secs: match f.poll_interval_secs {
                    Some(p) => p,
                    None => default_poll_interval_secs(),
                },
                bypass_apps: match f.bypass_apps {
                    Some(a) => a,
                    None => default_bypass_apps(),
                },
            },
            None => AppConfig {
                config_dir: default_dir,
                poll_interval_secs: default_poll_interval_secs(),
                bypass_apps: default_bypass_apps(),
            },
        }
    }

    /// Flip an app's bypass state by name. Returns `false` if no such app.
    pub fn toggle_bypass(&mut self, name: &str) -> (found: bool)
        ensures
            found == app_names(apps_view(old(self).bypass_apps@)).contains(name@),
            apps_view(final(self).bypass_apps@) == spec_toggle(
                apps_view(old(self).bypass_apps@),
                name@,
            ),
            final(self).config_dir == old(self).config_dir,
            final(self).poll_interval_secs == old(self).poll_interval_secs,
    {
        let ghost apps = apps_view(self.bypass_apps@);
        let ghost names = app_names(apps);
        proof {
            names.index_of_first_ensures(name@);
        }
        let target = name.to_string();
        let mut i: usize = 0;
        while i < self.bypass_apps.len()
            invariant
                i <= self.bypass_apps.len(),
                self.bypass_apps@ == old(self).bypass_apps@,
                self.config_dir == old(self).config_dir,
                self.poll_interval_secs == old(self).poll_interval_secs,
                apps == apps_view(self.bypass_apps@),
                names == app_names(apps),
                target@ == name@,
                forall|j: int| 0 <= j < i ==> names[j] != name@,
                match names.index_of_first(name@) {
                    Some(index) => {
                        &&& names.contains(name@)
                        &&& 0 <= index < names.len()
                        &&& names[index] == name@
                        &&& forall|j: int| 0 <= j < index < names.len() ==> names[j] != name@
                    },
                    None => !names.contains(name@),
                },
            decreases self.bypass_apps.len() - i,
        {
            if self.bypass_apps[i].name == target {
                assert(names[i as int] == name@);
                assert(names.index_of_first(name@) == Some(i as int));
                let flipped = !self.bypass_apps[i].enabled;
                self.bypass_apps[i].enabled = flipped;
                assert(apps_view(self.bypass_apps@) =~= spec_toggle(apps, name@));
                return true;
            }
            assert(names[i as int] != name@);
            i = i + 1;
        }
        false
    }

    /// Process names of every enabled bypass app, for the sing-box route rule.
    pub fn enabled_bypass_processes(&self) -> (p: Vec<String>)
        ensures
            texts_of(p@) == spec_enabled_processes(apps_view(self.bypass_apps@)),
    {
        let ghost apps = apps_view(self.bypass_apps@);
        let mut out: Vec<String> = Vec::new();
        let mut i: usize = 0;
        assert(apps.take(0) =~= Seq::<SpecBypassApp>::empty());
        while i < self.bypass_apps.len()
            invariant
                i <= self.bypass_apps.len(),
                apps == apps_view(self.bypass_apps@),
                texts_of(out@) == spec_enabled_processes(apps.take(i as int)),
            decreases self.bypass_apps.len() - i,
        {
            assert(apps.take(i + 1).drop_last() =~= apps.take(i as int));
            let app = &self.bypass_apps[i];
            if app.enabled {
                let ghost before = texts_of(out@);
                let mut j: usize = 0;
                while j < app.processes.len()
                    invariant
                        j <= app.processes.len(),
                        texts_of(out@) == before + texts_of(app.processes@).take(j as int),
                    decreases app.processes.len() - j,
                {
                    let p = app.processes[j].clone();
                    assert(p@ == texts_of(app.processes@)[j as int]);
                    let ghost prev = out@;
                    out.push(p);
                    assert(texts_of(out@) =~= texts_of(prev).push(p@));
                    assert(texts_of(app.processes@).take(j + 1) =~= texts_of(app.processes@).take(
                        j as int,
                    ).push(p@));
                    j = j + 1;
                    assert(texts_of(out@) =~= before + texts_of(app.processes@).take(j as int));
                }
                assert(texts_of(app.processes@).take(j as int) =~= texts_of(app.processes@));
            } else {
                assert(texts_of(out@) =~= texts_of(out@) + Seq::<Seq<char>>::empty());
            }
            i = i + 1;
        }
        assert(apps.take(i as int) =~= apps);
        out
    }
}

/// The built-in entries are Steam, qBittorrent and Transmission, all
/// starting disabled so nothing bypasses the tunnel; turning one of them on
/// routes exactly its executables direct: Steam and its web helper, the
/// qBittorrent desktop app and its headless `-nox` daemon, and the four
/// Transmission front ends and daemon.
pub proof fn lemma_default_bypass_apps()
    ensures
        app_names(spec_default_bypass_apps()) == seq!["Steam"@, "qBittorrent"@, "Transmission"@],
        spec_enabled_processes(spec_default_bypass_apps()) == Seq::<Seq<char>>::empty(),
        spec_enabled_processes(spec_toggle(spec_default_bypass_apps(), "Steam"@)) == seq![
            "steam"@,
            "steamwebhelper"@,
        ],
        spec_enabled_processes(spec_toggle(spec_default_bypass_apps(), "qBittorrent"@)) == seq![
            "qbittorrent"@,
            "qbittorrent-nox"@,
        ],
        spec_enabled_processes(spec_toggle(spec_default_bypass_apps(), "Transmission"@)) == seq![
            "transmission-gtk"@,
            "transmission-qt"@,
            "transmission-daemon"@,
            "transmission-cli"@,
        ],
{
    reveal_strlit("Steam");
    reveal_strlit("qBittorrent");
    reveal_strlit("Transmission");
    reveal_with_fuel(spec_enabled_processes, 4);
    let apps = spec_default_bypass_apps();
    let names = app_names(apps);
    assert(names =~= seq!["Steam"@, "qBittorrent"@, "Transmission"@]);
    assert("Steam"@[0] != "qBittorrent"@[0]);
    assert("Steam"@[0] != "Transmission"@[0]);
    assert("qBittorrent"@[0] != "Transmission"@[0]);
    names.index_of_first_ensures("Steam"@);
    names.index_of_first_ensures("qBittorrent"@);
    names.index_of_first_ensures("Transmission"@);
    assert(names.index_of_first("Steam"@) == Some(0int));
    assert(names.index_of_first("qBittorrent"@) == Some(1int));
    assert(names.index_of_first("Transmission"@) == Some(2int));
    assert(apps.drop_last().drop_last().drop_last() =~= Seq::<SpecBypassApp>::empty());
    assert(spec_enabled_processes(apps) =~= Seq::<Seq<char>>::empty());
    let t0 = spec_toggle(apps, "Steam"@);
    let t1 = spec_toggle(apps, "qBittorrent"@);
    let t2 = spec_toggle(apps, "Transmission"@);
    assert(t0.drop_last().drop_last().drop_last() =~= Seq::<SpecBypassApp>::empty());
    assert(t1.drop_last().drop_last().drop_last() =~= Seq::<SpecBypassApp>::empty());
    assert(t2.drop_last().drop_last().drop_last() =~= Seq::<SpecBypassApp>::empty());
    assert(spec_enabled_processes(t0) =~= seq!["steam"@, "steamwebhelper"@]);
    assert(spec_enabled_processes(t1) =~= seq!["qbittorrent"@, "qbittorrent-nox"@]);
    assert(spec_enabled_processes(t2) =~= seq![
        "transmission-gtk"@,
        "transmission-qt"@,
        "transmission-daemon"@,
        "transmission-cli"@,
    ]);
}

/// Toggling the same app twice restores the entries; toggling an app that
/// is not listed changes nothing.
pub proof fn lemma_toggle_twice(apps: Seq<SpecBypassApp>, name: Seq<char>)
    ensures
        spec_toggle(spec_toggle(apps, name), name) == apps,
        !app_names(apps).contains(name) ==> spec_toggle(apps, name) == apps,
{
    let names = app_names(apps);
    names.index_of_first_ensures(name);
    let once = spec_toggle(apps, name);
    match names.index_of_first(name) {
        Some(i) => {
            assert(app_names(once) =~= names);
            let twice = spec_toggle(once, name);
            assert(twice =~= apps);
        },
        None => {},
    }
}

/// Toggling an app flips that app's state only: the other entries, and the
/// names of all of them, stay as they were.
pub proof fn lemma_toggle_flips_one(apps: Seq<SpecBypassApp>, name: Seq<char>, j: int)
    requires
        app_names(apps).contains(name),
        0 <= j < apps.len(),
    ensures
        spec_toggle(apps, name).len() == apps.len(),
        app_names(spec_toggle(apps, name)) == app_names(apps),
        spec_toggle(apps, name)[j].enabled != apps[j].enabled <==> j == app_names(
            apps,
        ).index_of_first(name)->0,
        spec_toggle(apps, name)[j].processes == apps[j].processes,
{
    let names = app_names(apps);
    names.index_of_first_ensures(name);
    assert(app_names(spec_toggle(apps, name)) =~= names);
}

/// The processes routed direct are exactly those of the enabled apps: every
/// process of an enabled app is among them, and each of them belongs to an
/// enabled app.
pub proof fn lemma_enabled_processes(apps: Seq<SpecBypassApp>)
    ensures
        forall|i: int, k: int|
            0 <= i < apps.len() && apps[i].enabled && 0 <= k < apps[i].processes.len()
                ==> spec_enabled_processes(apps).contains(#[trigger] apps[i].processes[k]),
        forall|p: Seq<char>|
            spec_enabled_processes(apps).contains(p) ==> exists|i: int|
                0 <= i < apps.len() && apps[i].enabled && #[trigger] apps[i].processes.contains(p),
    decreases apps.len(),
{
    if apps.len() > 0 {
        let init = apps.drop_last();
        lemma_enabled_processes(init);
        let last = apps.last();
        let tail = if last.enabled {
            last.processes
        } else {
            seq![]
        };
        let all = spec_enabled_processes(apps);
        assert(all == spec_enabled_processes(init) + tail);
        assert forall|i: int, k: int|
            0 <= i < apps.len() && apps[i].enabled && 0 <= k < apps[i].processes.len() implies all.contains(
            #[trigger] apps[i].processes[k]) by {
            if i < apps.len() - 1 {
                assert(init[i] == apps[i]);
                let x = init[i].processes[k];
                assert(spec_enabled_processes(init).contains(x));
                let m = choose|m: int|
                    0 <= m < spec_enabled_processes(init).len() && spec_enabled_processes(
                        init,
                    )[m] == x;
                assert(all[m] == x);
            } else {
                assert(all[spec_enabled_processes(init).len() + k] == apps[i].processes[k]);
            }
        }
        assert forall|p: Seq<char>| all.contains(p) implies exists|i: int|
            0 <= i < apps.len() && apps[i].enabled && #[trigger] apps[i].processes.contains(p) by {
            let m = choose|m: int| 0 <= m < all.len() && all[m] == p;
            if m < spec_enabled_processes(init).len() {
                assert(spec_enabled_processes(init)[m] == p);
                assert(spec_enabled_processes(init).contains(p));
                let i = choose|i: int|
                    0 <= i < init.len() && init[i].enabled && #[trigger] init[i].processes.contains(
                        p,
                    );
                assert(apps[i] == init[i]);
            } else {
                let k = m - spec_enabled_processes(init).len();
                assert(tail[k] == p);
                assert(last.enabled);
                assert(apps[apps.len() - 1].processes[k] == p);
                assert(apps[apps.len() - 1].processes.contains(p));
            }
        }
    }
}

} // verus!
