//! The state the application holds about the selected interface and its networks,
//! and the decisions taken when it changes.
use crate::interface::WirelessInterface;
use crate::network::{id_of, WirelessNetwork};
use vstd::prelude::*;
use vstd::string::*;

verus! {

/// How long a freshly activated interface is given before it is scanned.
pub const SETTLE_DELAY_MS: u64 = 1000;

/// Asks the background worker to scan `interface`, after `delay_ms` if given.
#[derive(Debug, Clone, PartialEq, Eq)]
pub struct RefreshRequest {
    pub interface: String,
    pub delay_ms: Option<u64>,
}

/// Asks for the link of `interface` to be set up or down.
#[derive(Debug, Clone, PartialEq, Eq)]
pub struct InterfaceSwitch {
    pub interface: String,
    pub up: bool,
}

impl InterfaceSwitch {
    /// The word that names the wanted link state: `up` or `down`.
    pub fn link_state(&self) -> (r: &'static str)
        ensures
            r@ == (if self.up {
                "up"@
            } else {
                "down"@
            }),
    {
        if self.up {
            "up"
        } else {
            "down"
        }
    }
}

pub open spec fn opt_view(o: Option<String>) -> Option<Seq<char>> {
    match o {
        Some(s) => Some(s@),
        None => None,
    }
}

/// How a network is listed: its id, marked when it is the one the interface
/// is associated with.
pub open spec fn label_of(network: WirelessNetwork, connected: Option<String>) -> Seq<char> {
    let id = id_of(network.essid@, network.address@);
    if connected matches Some(c) && c@ == network.essid@ {
        id + " - connected"@
    } else {
        id
    }
}

/// The state of the application: the interfaces, the selected one and whether
/// it is on, and the networks it sees (`None` while a scan is under way, which
/// differs from a finished scan that found nothing).
pub struct AppState {
    pub wlan_interfaces: Vec<WirelessInterface>,
    pub selected_wlan_interface: String,
    pub wlan_networks: Option<Vec<WirelessNetwork>>,
    pub selected_wlan_network: String,
    pub connected_wlan_network: Option<String>,
    pub wlan_on: bool,
}

impl AppState {
    /// The state at start: the first interface is selected and taken to be on,
    /// and no scan has finished yet. Without interfaces nothing is selected
    /// (the name is empty) and the state is of no use, but stands.
    pub fn new(wlan_interfaces: Vec<WirelessInterface>, connected_wlan_network: Option<String>) -> (r:
        AppState)
        ensures
            r.wlan_interfaces == wlan_interfaces,
            r.selected_wlan_interface@ == (if wlan_interfaces@.len() > 0 {
                wlan_interfaces@[0].name@
            } else {
                Seq::<char>::empty()
            }),
            r.wlan_networks is None,
            r.selected_wlan_network@ == Seq::<char>::empty(),
            r.connected_wlan_network == connected_wlan_network,
            r.wlan_on,
    {
        let selected_wlan_interface = if wlan_interfaces.len() > 0 {
            wlan_interfaces[0].name.clone()
        } else {
            String::new()
        };
        AppState {
            wlan_interfaces,
            selected_wlan_interface,
            wlan_networks: None,
            selected_wlan_network: String::new(),
            connected_wlan_network,
            wlan_on: true,
        }
    }

    /// A request to scan the selected interface now.
    pub fn refresh_request(&self) -> (r: RefreshRequest)
        ensures
            r.interface@ == self.selected_wlan_interface@,
            r.delay_ms is None,
    {
        RefreshRequest { interface: self.selected_wlan_interface.clone(), delay_ms: None }
    }

    /// Takes in what the worker reported: the networks (`None`: a scan has
    /// begun), and, when the query for it succeeded, the network the interface
    /// is associated with. The first network found becomes the selected one.
    pub fn apply_update(
        &mut self,
        networks: Option<Vec<WirelessNetwork>>,
        connected: Option<Option<String>>,
    )
        ensures
            final(self).connected_wlan_network == (match connected {
                Some(c) => c,
                None => old(self).connected_wlan_network,
            }),
            final(self).wlan_networks == networks,
            final(self).selected_wlan_network@ == (match networks {
                Some(v) => if v@.len() > 0 {
                    id_of(v@[0].essid@, v@[0].address@)
                } else {
                    old(self).selected_wlan_network@
                },
                None => old(self).selected_wlan_network@,
            }),
            final(self).wlan_interfaces == old(self).wlan_interfaces,
            final(self).selected_wlan_interface == old(self).selected_wlan_interface,
            final(self).wlan_on == old(self).wlan_on,
    {
        if let Some(c) = connected {
            self.connected_wlan_network = c;
        }
        if let Some(ref v) = networks {
            if v.len() > 0 {
                self.selected_wlan_network = v[0].id();
            }
        }
        self.wlan_networks = networks;
    }

    /// Turns the selected interface on or off. Turning it off empties the list
    /// of networks, which no longer holds. Returns the link change to perform.
    pub fn toggle(&mut self) -> (r: InterfaceSwitch)
        ensures
            final(self).wlan_on == !old(self).wlan_on,
            old(self).wlan_on ==> (final(self).wlan_networks matches Some(v) && v@.len() == 0),
            !old(self).wlan_on ==> final(self).wlan_networks == old(self).wlan_networks,
            r.interface@ == old(self).selected_wlan_interface@,
            r.up == final(self).wlan_on,
            final(self).wlan_interfaces == old(self).wlan_interfaces,
            final(self).selected_wlan_interface == old(self).selected_wlan_interface,
            final(self).selected_wlan_network == old(self).selected_wlan_network,
            final(self).connected_wlan_network == old(self).connected_wlan_network,
    {
        self.wlan_on = !self.wlan_on;
        if !self.wlan_on {
            self.wlan_networks = Some(Vec::new());
        }
        InterfaceSwitch { interface: self.selected_wlan_interface.clone(), up: self.wlan_on }
    }

    /// What follows a link change: when the interface was turned on, one scan
    /// of it after the settle delay; when it was turned off, nothing. Whether
    /// the link change itself succeeded does not matter: the flag holds what
    /// was asked for, and a failure is only reported.
    pub fn switch_done(&self) -> (r: Option<RefreshRequest>)
        ensures
            r is Some <==> self.wlan_on,
            r matches Some(q) ==> q.interface@ == self.selected_wlan_interface@ && q.delay_ms
                == Some(SETTLE_DELAY_MS),
    {
        if self.wlan_on {
            Some(
                RefreshRequest {
                    interface: self.selected_wlan_interface.clone(),
                    delay_ms: Some(SETTLE_DELAY_MS),
                },
            )
        } else {
            None
        }
    }

    /// How `network` is listed: its id, with ` - connected` after it when it is
    /// the network the selected interface is associated with.
    pub fn network_label(&self, network: &WirelessNetwork) -> (r: String)
        ensures
            r@ == label_of(*network, self.connected_wlan_network),
    {
        let mut id = network.id();
        if let Some(ref c) = self.connected_wlan_network {
            if *c == network.essid {
                id.append(" - connected");
            }
        }
        id
    }
}

} // verus!
