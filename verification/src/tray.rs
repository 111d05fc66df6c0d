//! What the system tray shows and does: its labels in the UI language, the
//! state of its items for a connection, and what its toggle item starts.

use vstd::prelude::*;
use vstd::string::*;

use crate::models::{locate, server_at, ConnStatus, ConnectionState, Mode, ProfileStore};
use crate::subscription::opt_str;
use crate::text::{chars_of, eq_str, push_str, string_of};
use crate::url_text::opt_text;

verus! {

/// The tray's labels in one language.
#[derive(Debug, Clone, Copy)]
pub struct Strings {
    pub show: &'static str,
    pub connect: &'static str,
    pub disconnect: &'static str,
    pub connecting: &'static str,
    pub mode: &'static str,
    pub mode_system: &'static str,
    pub mode_tun: &'static str,
    pub quit: &'static str,
    pub no_server: &'static str,
}

/// The tray's labels as text.
pub struct LabelsView {
    pub show: Seq<char>,
    pub connect: Seq<char>,
    pub disconnect: Seq<char>,
    pub connecting: Seq<char>,
    pub mode: Seq<char>,
    pub mode_system: Seq<char>,
    pub mode_tun: Seq<char>,
    pub quit: Seq<char>,
    pub no_server: Seq<char>,
}

impl View for Strings {
    type V = LabelsView;

    open spec fn view(&self) -> LabelsView {
        LabelsView {
            show: self.show@,
            connect: self.connect@,
            disconnect: self.disconnect@,
            connecting: self.connecting@,
            mode: self.mode@,
            mode_system: self.mode_system@,
            mode_tun: self.mode_tun@,
            quit: self.quit@,
            no_server: self.no_server@,
        }
    }
}

/// The labels for a UI language: English for `en`, Russian otherwise.
pub open spec fn labels_for(lang: Seq<char>) -> LabelsView {
    if lang == "en"@ {
        LabelsView {
            show: "Show window"@,
            connect: "Connect"@,
            disconnect: "Disconnect"@,
            connecting: "Connecting…"@,
            mode: "Mode"@,
            mode_system: "System proxy"@,
            mode_tun: "TUN mode"@,
            quit: "Quit Umbra"@,
            no_server: "No server selected"@,
        }
    } else {
        LabelsView {
            show: "Показать окно"@,
            connect: "Подключить"@,
            disconnect: "Отключить"@,
            connecting: "Подключение…"@,
            mode: "Режим"@,
            mode_system: "Системный прокси"@,
            mode_tun: "Режим TUN"@,
            quit: "Выход"@,
            no_server: "Сервер не выбран"@,
        }
    }
}

/// The tray's labels for a UI language: English for `en`, Russian for
/// anything else.
pub fn strings(lang: &str) -> (r: Strings)
    ensures
        r@ == labels_for(lang@),
{
    if eq_str(&chars_of(lang), "en") {
        Strings {
            show: "Show window",
            connect: "Connect",
            disconnect: "Disconnect",
            connecting: "Connecting…",
            mode: "Mode",
            mode_system: "System proxy",
            mode_tun: "TUN mode",
            quit: "Quit Umbra",
            no_server: "No server selected",
        }
    } else {
        Strings {
            show: "Показать окно",
            connect: "Подключить",
            disconnect: "Отключить",
            connecting: "Подключение…",
            mode: "Режим",
            mode_system: "Системный прокси",
            mode_tun: "Режим TUN",
            quit: "Выход",
            no_server: "Сервер не выбран",
        }
    }
}

/// The server label: the listed name of the connection's server (else the
/// selected one), falling back to the name snapshotted when the tunnel
/// came up, then to "no server".
pub open spec fn server_label_spec(
    store: ProfileStore,
    selected: Option<Seq<char>>,
    conn_server_id: Option<Seq<char>>,
    conn_server_name: Option<Seq<char>>,
    no_server: Seq<char>,
) -> Seq<char> {
    let fallback = match conn_server_name {
        Some(n) => n,
        None => no_server,
    };
    let id = match conn_server_id {
        Some(i) => Some(i),
        None => selected,
    };
    match id {
        Some(i) => match locate(store, i) {
            Some(loc) => server_at(store, loc).name@,
            None => fallback,
        },
        None => fallback,
    }
}

/// What the tray shows for a connection.
#[derive(Debug, Clone)]
pub struct TrayView {
    /// Label of the connect/disconnect item.
    pub toggle_text: &'static str,
    /// Label of the (disabled) item naming the server.
    pub server_label: String,
    pub system_checked: bool,
    pub tun_checked: bool,
    /// Whether the connected icon is shown.
    pub connected: bool,
    pub tooltip: String,
}

/// What the tray shows: the toggle says disconnect when connected and
/// "connecting" while starting or stopping; the icon and the tooltip name
/// the server only when connected.
pub fn tray_view(
    lang: &str,
    selected: Option<&str>,
    conn: &ConnectionState,
    store: &ProfileStore,
) -> (r: TrayView)
    ensures
        ({
            let s = labels_for(lang@);
            let label = server_label_spec(
                *store,
                opt_str(selected),
                opt_text(conn.server_id),
                opt_text(conn.server_name),
                s.no_server,
            );
            &&& r.server_label@ == label
            &&& r.toggle_text@ == match conn.status {
                ConnStatus::Connected => s.disconnect,
                ConnStatus::Connecting => s.connecting,
                ConnStatus::Stopping => s.connecting,
                ConnStatus::Disconnected => s.connect,
            }
            &&& r.connected == (conn.status == ConnStatus::Connected)
            &&& r.system_checked == (conn.mode == Mode::SystemProxy)
            &&& r.tun_checked == (conn.mode == Mode::Tun)
            &&& r.tooltip@ == if r.connected {
                "Umbra — "@ + label
            } else {
                "Umbra"@
            }
        }),
{
    let s = strings(lang);
    let id = match &conn.server_id {
        Some(i) => Some(i.as_str()),
        None => selected,
    };
    let fallback = match &conn.server_name {
        Some(n) => n.clone(),
        None => String::from_str(s.no_server),
    };
    let label = match id {
        Some(i) => match store.find_server(i) {
            Some(srv) => srv.name.clone(),
            None => fallback,
        },
        None => fallback,
    };
    let (toggle_text, connected) = match conn.status {
        ConnStatus::Connected => (s.disconnect, true),
        ConnStatus::Connecting => (s.connecting, false),
        ConnStatus::Stopping => (s.connecting, false),
        ConnStatus::Disconnected => (s.connect, false),
    };
    let tooltip = if connected {
        let mut t: Vec<char> = Vec::new();
        push_str(&mut t, "Umbra — ");
        push_str(&mut t, label.as_str());
        string_of(&t)
    } else {
        String::from_str("Umbra")
    };
    TrayView {
        toggle_text,
        server_label: label,
        system_checked: matches!(conn.mode, Mode::SystemProxy),
        tun_checked: matches!(conn.mode, Mode::Tun),
        connected,
        tooltip,
    }
}

/// What the tray's connect/disconnect item starts.
#[derive(Debug, Clone, PartialEq, Eq)]
pub enum TrayToggle {
    Disconnect,
    Connect(String),
    /// Nothing is selected: bring up the window to pick a server.
    ShowWindow,
}

/// The toggle disconnects a connected or connecting tunnel, connects the
/// selected server otherwise, and opens the window when none is selected.
pub fn tray_toggle(status: ConnStatus, selected: Option<&str>) -> (r: TrayToggle)
    ensures
        (status == ConnStatus::Connected || status == ConnStatus::Connecting) ==> r
            == TrayToggle::Disconnect,
        !(status == ConnStatus::Connected || status == ConnStatus::Connecting) ==> match selected {
            Some(id) => r matches TrayToggle::Connect(x) && x@ == id@,
            None => r == TrayToggle::ShowWindow,
        },
{
    match status {
        ConnStatus::Connected | ConnStatus::Connecting => TrayToggle::Disconnect,
        _ => match selected {
            Some(id) => TrayToggle::Connect(String::from_str(id)),
            None => TrayToggle::ShowWindow,
        },
    }
}

/// The mode a tray mode item selects: TUN for `tray_mode_tun`, the system
/// proxy for any other.
pub fn tray_mode(item_id: &str) -> (r: Mode)
    ensures
        r == (if item_id@ == "tray_mode_tun"@ {
            Mode::Tun
        } else {
            Mode::SystemProxy
        }),
{
    if eq_str(&chars_of(item_id), "tray_mode_tun") {
        Mode::Tun
    } else {
        Mode::SystemProxy
    }
}

} // verus!
