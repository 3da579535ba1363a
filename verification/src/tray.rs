//! What the tray menu shows: the status line, one entry per server with the
//! active one selected, and a disconnect entry while connected.

use vstd::prelude::*;

use crate::text::push_char;
use crate::vpn::{spec_label, Server, ServerKind, VpnStatus};

verus! {

/// Actions sent from tray menu callbacks to the action handler.
#[derive(Debug)]
pub enum VpnAction {
    Connect(String),
    Disconnect,
    ToggleAutostart,
    Quit,
}

/// What `char::to_uppercase` yields for `c`, collected into a string.
pub uninterp spec fn char_uppercase(c: char) -> Seq<char>;

/// The uppercase form of an ASCII character: `a`..=`z` become `A`..=`Z`,
/// every other character stays as it is.
pub open spec fn ascii_upper(c: char) -> char {
    if 0x61 <= (c as u32) <= 0x7a {
        ((c as u32) - 0x20) as char
    } else {
        c
    }
}

/// `char::to_uppercase`, collected: the uppercase mapping of `c`, one or
/// more characters (`c` itself when it has no uppercase mapping). For an
/// ASCII character that is the single character `ascii_upper(c)`; for the
/// others, which characters it is is left to the name `char_uppercase`.
#[verifier::external_body]
fn uppercase(c: char) -> (s: String)
    ensures
        s@ == char_uppercase(c),
        s@.len() >= 1,
        (c as u32) < 0x80 ==> s@ == seq![ascii_upper(c)],
{
    c.to_uppercase().to_string()
}

/// The uppercase mapping of `c`: spelled out for ASCII, named otherwise.
pub open spec fn uppercased(c: char) -> Seq<char> {
    if (c as u32) < 0x80 {
        seq![ascii_upper(c)]
    } else {
        char_uppercase(c)
    }
}

/// A server's menu label: its name with the first character uppercased,
/// marked ` (VLESS)` for VLESS servers.
pub open spec fn spec_server_label(name: Seq<char>, kind: ServerKind) -> Seq<char> {
    (if name.len() == 0 {
        name
    } else {
        uppercased(name[0]) + name.skip(1)
    }) + if kind == ServerKind::Vless {
        " (VLESS)"@
    } else {
        Seq::<char>::empty()
    }
}

/// The names of the servers, in order.
pub open spec fn server_names(servers: Seq<Server>) -> Seq<Seq<char>> {
    servers.map_values(|s: Server| s.name@)
}

/// The menu position of the active server, or `usize::MAX` (no entry
/// selected) when no listed server is active.
pub open spec fn spec_selected(servers: Seq<Server>, active: Option<Seq<char>>) -> usize {
    match active {
        Some(a) => match server_names(servers).index_of_first(a) {
            Some(i) => i as usize,
            None => usize::MAX,
        },
        None => usize::MAX,
    }
}

/// The contents of the tray menu that depend on the status and servers.
#[derive(Debug)]
pub struct MenuModel {
    /// The (inactive) status line at the top.
    pub status_line: String,
    /// The label of each server's entry, in order.
    pub options: Vec<String>,
    /// The selected entry, or `usize::MAX` for none.
    pub selected: usize,
    /// Whether a `Disconnect` entry is offered.
    pub show_disconnect: bool,
}

/// A server's menu label.
pub fn server_label(server: &Server) -> (s: String)
    ensures
        s@ == spec_server_label(server.name@, server.kind),
{
    let chars = crate::text::chars_of(server.name.as_str());
    let mut label = if chars.len() == 0 {
        server.name.clone()
    } else {
        let mut l = uppercase(chars[0]);
        let ghost head = l@;
        let mut i: usize = 1;
        while i < chars.len()
            invariant
                1 <= i <= chars.len(),
                chars@ == server.name@,
                l@ == head + server.name@.subrange(1, i as int),
            decreases chars.len() - i,
        {
            push_char(&mut l, chars[i]);
            i = i + 1;
            assert(l@ =~= head + server.name@.subrange(1, i as int));
        }
        assert(server.name@.subrange(1, i as int) =~= server.name@.skip(1));
        l
    };
    let ghost base = label@;
    if server.kind == ServerKind::Vless {
        label.append(" (VLESS)");
    } else {
        assert(label@ =~= base + Seq::<char>::empty());
    }
    label
}

/// The menu for `servers` while the tray shows `status`.
pub fn menu_model(status: &VpnStatus, servers: &Vec<Server>) -> (m: MenuModel)
    ensures
        m.status_line@ == "Status: "@ + spec_label(*status),
        m.options@.len() == servers@.len(),
        forall|i: int|
            0 <= i < servers@.len() ==> (#[trigger] m.options@[i])@ == spec_server_label(
                servers@[i].name@,
                servers@[i].kind,
            ),
        m.selected == spec_selected(servers@, crate::vpn::active_name(*status)),
        m.show_disconnect == status is Connected,
{
    let mut status_line = "Status: ".to_string();
    let l = status.label();
    status_line.append(l.as_str());
    let mut options: Vec<String> = Vec::new();
    let active = status.active_server();
    let active_text: Option<String> = match active {
        Some(a) => Some(a.to_string()),
        None => None,
    };
    let ghost names = server_names(servers@);
    let mut selected = usize::MAX;
    let mut i: usize = 0;
    while i < servers.len()
        invariant
            i <= servers.len(),
            options@.len() == i,
            names == server_names(servers@),
            forall|j: int|
                0 <= j < i ==> (#[trigger] options@[j])@ == spec_server_label(
                    servers@[j].name@,
                    servers@[j].kind,
                ),
            match active {
                Some(a) => {
                    &&& active_text is Some && active_text->0@ == a@
                    &&& crate::vpn::active_name(*status) == Some(a@)
                    &&& if selected == usize::MAX {
                        forall|j: int| 0 <= j < i ==> names[j] != a@
                    } else {
                        selected < i && names.index_of_first(a@) == Some(selected as int)
                    }
                },
                None => crate::vpn::active_name(*status) is None && selected == usize::MAX
                    && active_text is None,
            },
        decreases servers.len() - i,
    {
        options.push(server_label(&servers[i]));
        if let Some(a) = &active_text {
            if selected == usize::MAX && servers[i].name == *a {
                proof {
                    names.index_of_first_ensures(a@);
                    assert(names[i as int] == a@);
                }
                selected = i;
            }
        }
        i = i + 1;
    }
    proof {
        if let Some(a) = active {
            names.index_of_first_ensures(a@);
        }
    }
    MenuModel {
        status_line,
        options,
        selected,
        show_disconnect: match status {
            VpnStatus::Connected(_) => true,
            _ => false,
        },
    }
}

/// The selected entry is the first server whose name is the active one; no
/// entry is selected when no server has that name or none is active. (For
/// a list that fits in memory.)
pub proof fn lemma_selected(servers: Seq<Server>, active: Option<Seq<char>>)
    requires
        servers.len() <= usize::MAX,
    ensures
        forall|i: int|
            0 <= i < servers.len() && active == Some(#[trigger] servers[i].name@) && (forall|j: int|
                0 <= j < i ==> Some(servers[j].name@) != active) ==> spec_selected(servers, active)
                == i,
        (forall|i: int| 0 <= i < servers.len() ==> Some(#[trigger] servers[i].name@) != active)
            ==> spec_selected(servers, active) == usize::MAX,
{
    let names = server_names(servers);
    if let Some(a) = active {
        names.index_of_first_ensures(a);
        assert forall|i: int|
            0 <= i < servers.len() && active == Some(#[trigger] servers[i].name@) && (forall|j: int|
                0 <= j < i ==> Some(servers[j].name@) != active) implies spec_selected(servers, active)
                == i by {
            assert(names[i] == a);
            match names.index_of_first(a) {
                Some(k) => {
                    if k < i {
                        assert(names[k] == servers[k].name@);
                    }
                    if k > i {
                        assert(names[i] == a);
                    }
                },
                None => {
                    assert(names.contains(a));
                },
            }
        }
        if forall|i: int| 0 <= i < servers.len() ==> Some(#[trigger] servers[i].name@) != active {
            if let Some(k) = names.index_of_first(a) {
                assert(names[k] == servers[k].name@);
            }
        }
    }
}

} // verus!
