//! Announcing this device: what is told, when it changes, and what went wrong.
use vstd::prelude::*;

use crate::address::Ipv4;
use crate::listen::{instance_name, sanitize_instance_name};
use crate::order::{ascending, sorted_unique};
use crate::peers::{keep_real_ports, real_ports, BeaconOut, BeaconView, SERVICE_TYPE};
use crate::text::{opt_text, same, Text};

verus! {

broadcast use vstd::string::group_string_axioms;

/// A service that is announced.
#[derive(Debug)]
pub struct AdvertisedService {
    pub fullname: String,
    pub port: u16,
    pub ips: Vec<Ipv4>,
}

/// The view of [`AdvertisedService`].
#[verifier::ext_equal]
pub struct ServiceView {
    pub fullname: Text,
    pub port: u16,
    pub ips: Seq<Ipv4>,
}

impl View for AdvertisedService {
    type V = ServiceView;

    open spec fn view(&self) -> ServiceView {
        ServiceView { fullname: self.fullname@, port: self.port, ips: self.ips@ }
    }
}

/// The view of a service, where there is one.
pub open spec fn service_view(s: Option<AdvertisedService>) -> Option<ServiceView> {
    match s {
        Some(s) => Some(s@),
        None => None,
    }
}

/// The view of a beacon, where there is one.
pub open spec fn beacon_view(b: Option<BeaconOut>) -> Option<BeaconView> {
    match b {
        Some(b) => Some(b@),
        None => None,
    }
}

/// What is known of the announcements of this device.
#[derive(Debug)]
pub struct NetworkDiscovery {
    /// Whether the service that announces could be opened.
    pub daemon: bool,
    /// Whether other devices are being looked for.
    pub browse_started: bool,
    pub advertised: Option<AdvertisedService>,
    pub beacon_out: Option<BeaconOut>,
    pub last_error: Option<String>,
}

/// The view of [`NetworkDiscovery`].
#[verifier::ext_equal]
pub struct DiscoveryView {
    pub daemon: bool,
    pub browse_started: bool,
    pub advertised: Option<ServiceView>,
    pub beacon_out: Option<BeaconView>,
    pub last_error: Option<Text>,
}

impl View for NetworkDiscovery {
    type V = DiscoveryView;

    open spec fn view(&self) -> DiscoveryView {
        DiscoveryView {
            daemon: self.daemon,
            browse_started: self.browse_started,
            advertised: service_view(self.advertised),
            beacon_out: beacon_view(self.beacon_out),
            last_error: opt_text(self.last_error),
        }
    }
}

/// What is to be done before anything can be announced.
#[derive(Clone, Copy, Debug, PartialEq, Eq, Structural)]
pub enum DaemonStep {
    Open,
    Browse,
    Ready,
}

/// The ports to announce: those that are not zero, each once, upwards.
pub open spec fn announced_ports(ports: Seq<u16>) -> Seq<u16> {
    ascending(real_ports(ports))
}

/// The port that stands for all.
pub open spec fn leading_port(ports: Seq<u16>) -> u16 {
    if announced_ports(ports).len() > 0 {
        announced_ports(ports)[0]
    } else {
        0
    }
}

/// The beacon for a share.
pub open spec fn beacon_for(
    expose: bool,
    name: Text,
    ports: Seq<u16>,
    lan: Seq<Ipv4>,
) -> Option<BeaconView> {
    if expose && leading_port(ports) != 0 && lan.len() > 0 {
        Some(
            BeaconView {
                name: instance_name(name),
                port: leading_port(ports),
                ports: announced_ports(ports),
                ips: lan,
            },
        )
    } else {
        None
    }
}

/// The full name of the service of a device.
pub open spec fn service_fullname(instance: Text) -> Text {
    instance + "."@ + SERVICE_TYPE@
}

/// The service for a share.
pub open spec fn service_for(name: Text, ports: Seq<u16>, lan: Seq<Ipv4>) -> ServiceView {
    ServiceView {
        fullname: service_fullname(instance_name(name)),
        port: leading_port(ports),
        ips: lan,
    }
}

/// What is said where no address of the local network is known.
pub open spec fn no_address() -> Text {
    "LAN discovery: no Wi‑Fi/Ethernet IPv4 found to advertise"@
}

/// What is to be told the network.
#[derive(Debug)]
pub struct AdvertiseAction {
    /// The service to take back.
    pub unregister: Option<String>,
    /// The service to announce.
    pub register: Option<AdvertisedService>,
}

/// The view of [`AdvertiseAction`].
pub struct ActionView {
    pub unregister: Option<Text>,
    pub register: Option<ServiceView>,
}

impl View for AdvertiseAction {
    type V = ActionView;

    open spec fn view(&self) -> ActionView {
        ActionView {
            unregister: opt_text(self.unregister),
            register: service_view(self.register),
        }
    }
}

/// The name of a service, where there is one.
pub open spec fn name_of(s: Option<ServiceView>) -> Option<Text> {
    match s {
        Some(s) => Some(s.fullname),
        None => None,
    }
}

/// What is known, and what is to be told, after the share changed.
pub open spec fn advertise_synced(
    d: DiscoveryView,
    expose: bool,
    name: Text,
    ports: Seq<u16>,
    lan: Seq<Ipv4>,
) -> (DiscoveryView, ActionView) {
    let d1 = DiscoveryView { beacon_out: beacon_for(expose, name, ports, lan), ..d };
    let quiet = ActionView { unregister: None, register: None };
    let withdrawn = ActionView { unregister: name_of(d.advertised), register: None };
    let next = service_for(name, ports, lan);
    if !d.daemon {
        (
            if expose && lan.len() == 0 {
                DiscoveryView { last_error: Some(no_address()), ..d1 }
            } else {
                d1
            },
            quiet,
        )
    } else if !expose || leading_port(ports) == 0 {
        (DiscoveryView { advertised: None, ..d1 }, withdrawn)
    } else if lan.len() == 0 {
        (
            DiscoveryView { advertised: None, last_error: Some(no_address()), ..d1 },
            withdrawn,
        )
    } else if d.advertised == Some(next) {
        (d1, quiet)
    } else {
        (
            DiscoveryView { advertised: None, ..d1 },
            ActionView { unregister: name_of(d.advertised), register: Some(next) },
        )
    }
}

fn copy_addrs(v: &Vec<Ipv4>) -> (out: Vec<Ipv4>)
    ensures
        out@ == v@,
{
    let mut out: Vec<Ipv4> = Vec::new();
    let mut i: usize = 0;
    while i < v.len()
        invariant
            i <= v.len(),
            out@ == v@.take(i as int),
        decreases v.len() - i,
    {
        out.push(v[i]);
        i = i + 1;
    }
    proof {
        assert(v@.take(v@.len() as int) =~= v@);
    }
    out
}

fn same_addrs(a: &Vec<Ipv4>, b: &Vec<Ipv4>) -> (r: bool)
    ensures
        r == (a@ == b@),
{
    if a.len() != b.len() {
        return false;
    }
    let mut i: usize = 0;
    while i < a.len()
        invariant
            a.len() == b.len(),
            i <= a.len(),
            forall|k: int| 0 <= k < i ==> a@[k] == b@[k],
        decreases a.len() - i,
    {
        if a[i] != b[i] {
            assert(a@[i as int] != b@[i as int]);
            return false;
        }
        i = i + 1;
    }
    proof {
        assert(a@ =~= b@);
    }
    true
}

impl NetworkDiscovery {
    /// Nothing is announced yet.
    pub fn new() -> (r: NetworkDiscovery)
        ensures
            r@ == (DiscoveryView {
                daemon: false,
                browse_started: false,
                advertised: None,
                beacon_out: None,
                last_error: None,
            }),
    {
        NetworkDiscovery {
            daemon: false,
            browse_started: false,
            advertised: None,
            beacon_out: None,
            last_error: None,
        }
    }

    /// What went wrong last.
    pub fn last_error(&self) -> (r: Option<String>)
        ensures
            opt_text(r) == self@.last_error,
    {
        crate::config::copy_opt(&self.last_error)
    }

    /// The name of the service that is announced.
    pub fn advertised_fullname(&self) -> (r: Option<String>)
        ensures
            opt_text(r) == name_of(self@.advertised),
    {
        match &self.advertised {
            Some(s) => Some(s.fullname.clone()),
            None => None,
        }
    }

    /// Whether anything is announced.
    pub fn is_advertising(&self) -> (r: bool)
        ensures
            r == (self@.advertised is Some || self@.beacon_out is Some),
    {
        self.advertised.is_some() || self.beacon_out.is_some()
    }

    /// What is to be done before anything can be announced.
    pub fn daemon_step(&self) -> (r: DaemonStep)
        ensures
            r == (if !self@.daemon {
                DaemonStep::Open
            } else if !self@.browse_started {
                DaemonStep::Browse
            } else {
                DaemonStep::Ready
            }),
    {
        if !self.daemon {
            DaemonStep::Open
        } else if !self.browse_started {
            DaemonStep::Browse
        } else {
            DaemonStep::Ready
        }
    }

    /// Takes in whether the service that announces could be opened.
    pub fn daemon_opened(&mut self, error: Option<&str>)
        ensures
            final(self)@ == (match error {
                None => DiscoveryView { daemon: true, ..old(self)@ },
                Some(e) => DiscoveryView {
                    last_error: Some("mDNS unavailable: "@ + e@),
                    ..old(self)@
                },
            }),
    {
        match error {
            None => {
                self.daemon = true;
            },
            Some(e) => {
                let mut m = "mDNS unavailable: ".to_owned();
                m.append(e);
                self.last_error = Some(m);
            },
        }
    }

    /// Takes in whether other devices can be looked for.
    pub fn browsing(&mut self, error: Option<&str>)
        ensures
            final(self)@ == (match error {
                None => DiscoveryView { browse_started: true, ..old(self)@ },
                Some(e) => DiscoveryView {
                    last_error: Some("mDNS browse failed: "@ + e@),
                    ..old(self)@
                },
            }),
    {
        match error {
            None => {
                self.browse_started = true;
            },
            Some(e) => {
                let mut m = "mDNS browse failed: ".to_owned();
                m.append(e);
                self.last_error = Some(m);
            },
        }
    }

    fn withdraw(&mut self) -> (r: Option<String>)
        ensures
            opt_text(r) == name_of(old(self)@.advertised),
            final(self)@ == (DiscoveryView { advertised: None, ..old(self)@ }),
    {
        let name = self.advertised_fullname();
        self.advertised = None;
        name
    }

    /// Takes in what is shared now: sets the beacon, and says which service to
    /// take back and which to announce.
    pub fn sync_advertise(
        &mut self,
        expose: bool,
        device_name: &str,
        ports: &Vec<u16>,
        lan: &Vec<Ipv4>,
    ) -> (r: AdvertiseAction)
        ensures
            (final(self)@, r@) == advertise_synced(
                old(self)@,
                expose,
                device_name@,
                ports@,
                lan@,
            ),
    {
        let instance = sanitize_instance_name(device_name);
        let all = sorted_unique(&keep_real_ports(ports));
        let port: u16 = if all.len() > 0 {
            all[0]
        } else {
            0
        };
        if expose && port != 0 && lan.len() > 0 {
            self.beacon_out = Some(
                BeaconOut { name: instance.clone(), port, ports: all, ips: copy_addrs(lan) },
            );
        } else {
            self.beacon_out = None;
        }
        if !self.daemon {
            if expose && lan.len() == 0 {
                self.last_error = Some(
                    "LAN discovery: no Wi‑Fi/Ethernet IPv4 found to advertise".to_owned(),
                );
            }
            return AdvertiseAction { unregister: None, register: None };
        }
        if !expose || port == 0 {
            let unregister = self.withdraw();
            return AdvertiseAction { unregister, register: None };
        }
        if lan.len() == 0 {
            self.last_error = Some(
                "LAN discovery: no Wi‑Fi/Ethernet IPv4 found to advertise".to_owned(),
            );
            let unregister = self.withdraw();
            return AdvertiseAction { unregister, register: None };
        }
        let mut fullname = instance;
        fullname.append(".");
        fullname.append(SERVICE_TYPE);
        let unchanged: bool = match &self.advertised {
            Some(s) => same(s.fullname.as_str(), fullname.as_str()) && s.port == port
                && same_addrs(&s.ips, lan),
            None => false,
        };
        if unchanged {
            return AdvertiseAction { unregister: None, register: None };
        }
        let unregister = self.withdraw();
        AdvertiseAction {
            unregister,
            register: Some(AdvertisedService { fullname, port, ips: copy_addrs(lan) }),
        }
    }

    /// Takes in whether a service could be announced.
    pub fn registered(&mut self, service: AdvertisedService, error: Option<&str>)
        ensures
            final(self)@ == (match error {
                None => DiscoveryView {
                    advertised: Some(service@),
                    last_error: None,
                    ..old(self)@
                },
                Some(e) => DiscoveryView {
                    last_error: Some("mDNS advertise failed: "@ + e@),
                    ..old(self)@
                },
            }),
    {
        match error {
            None => {
                self.advertised = Some(service);
                self.last_error = None;
            },
            Some(e) => {
                let mut m = "mDNS advertise failed: ".to_owned();
                m.append(e);
                self.last_error = Some(m);
            },
        }
    }
}

/// While nothing is shared, nothing is announced in either way.
pub proof fn law_unshared_is_silent(
    d: DiscoveryView,
    name: Text,
    ports: Seq<u16>,
    lan: Seq<Ipv4>,
)
    ensures
        ({
            let (e, act) = advertise_synced(d, false, name, ports, lan);
            &&& e.beacon_out is None
            &&& act.register is None
            &&& (d.daemon ==> e.advertised is None && act.unregister == name_of(d.advertised))
        }),
{
}

/// Announcing the same share again says nothing new.
pub proof fn law_same_share_is_told_once(
    d: DiscoveryView,
    name: Text,
    ports: Seq<u16>,
    lan: Seq<Ipv4>,
)
    requires
        d.daemon,
        lan.len() > 0,
        leading_port(ports) != 0,
        d.advertised == Some(service_for(name, ports, lan)),
    ensures
        ({
            let (e, act) = advertise_synced(d, true, name, ports, lan);
            &&& act.register is None
            &&& act.unregister is None
            &&& e.advertised == d.advertised
        }),
{
}

/// What is announced while sharing names every shared port, upwards, the first of
/// them as the one to ask, and the addresses on the local network.
pub proof fn law_every_shared_port_is_announced(name: Text, ports: Seq<u16>, lan: Seq<Ipv4>, p: u16)
    requires
        ports.contains(p),
        p != 0,
        lan.len() > 0,
    ensures
        beacon_for(true, name, ports, lan) matches Some(b) && {
            &&& b.name == instance_name(name)
            &&& b.ips == lan
            &&& b.ports.contains(p)
            &&& crate::order::rises(b.ports)
            &&& b.port <= p
            &&& b.ports.contains(b.port)
            &&& !b.ports.contains(0)
        },
        service_for(name, ports, lan).port <= p,
        service_for(name, ports, lan).port != 0,
        service_for(name, ports, lan).ips == lan,
        instance_name(name).is_prefix_of(service_for(name, ports, lan).fullname),
        beacon_for(false, name, ports, lan) is None,
{
    let v = real_ports(ports);
    crate::peers::lemma_real_ports(ports);
    crate::order::lemma_ascending(v);
    let a = announced_ports(ports);
    assert(v.contains(p));
    assert(a.contains(p));
    let k = choose|k: int| 0 <= k < a.len() && a[k] == p;
    assert(a[0] <= a[k]);
    assert(a.contains(a[0]));
    assert(v.contains(a[0]));
    assert(!a.contains(0)) by {
        assert(!v.contains(0));
    }
    let f = service_for(name, ports, lan).fullname;
    assert(f.subrange(0, instance_name(name).len() as int) =~= instance_name(name));
}

} // verus!
