//! Devices discovered on the network and the renderer profiles they matched.

use std::time::SystemTime;
use vstd::prelude::*;

use crate::renderer::{ConfigView, RendererConfiguration};

verus! {

/// `std::time::SystemTime`, carried through the library without being read.
#[verifier::external_type_specification]
#[verifier::external_body]
pub struct ExSystemTime(SystemTime);

/// `SystemTime::clone`, used by the derived `Clone` of [`RegisteredDevice`];
/// nothing is stated of the copy.
pub assume_specification[ <SystemTime as Clone>::clone ](t: &SystemTime) -> SystemTime;

/// An IP address, by its numeric value.
#[derive(Debug, Clone, Copy, PartialEq, Eq, Structural, Hash)]
pub enum IpAddress {
    V4(u32),
    V6(u128),
}

/// What a device says of itself in its UPnP description.
#[derive(Debug, Clone)]
pub struct UpnpDetails {
    pub friendly_name: String,
    pub manufacturer: String,
    pub model_name: String,
    pub model_number: String,
    pub model_description: String,
    pub manufacturer_url: String,
    pub model_url: String,
    pub address: String,
    pub udn: String,
}

/// A device that matched a renderer profile.
#[derive(Debug, Clone)]
pub struct RegisteredDevice {
    pub ip: IpAddress,
    pub renderer: RendererConfiguration,
    pub details: UpnpDetails,
    pub last_seen: SystemTime,
}

/// The registry of matched devices, one per address.
#[derive(Debug)]
pub struct DeviceRegistry {
    devices: Vec<(IpAddress, RegisteredDevice)>,
}

impl DeviceRegistry {
    /// No address occurs twice.
    #[verifier::type_invariant]
    closed spec fn wf(&self) -> bool {
        forall|i: int, j: int|
            0 <= i < self.devices@.len() && 0 <= j < self.devices@.len() && i != j
                ==> #[trigger] self.devices@[i].0 != #[trigger] self.devices@[j].0
    }

    /// The position of address `ip`.
    closed spec fn index_of(&self, ip: IpAddress) -> int {
        choose|i: int| 0 <= i < self.devices@.len() && self.devices@[i].0 == ip
    }

    /// The registered devices, by address.
    pub closed spec fn devices(&self) -> Map<IpAddress, RegisteredDevice> {
        Map::new(
            |ip: IpAddress| exists|i: int| 0 <= i < self.devices@.len() && self.devices@[i].0 == ip,
            |ip: IpAddress| self.devices@[self.index_of(ip)].1,
        )
    }

    /// The renderer profile of each registered address.
    pub open spec fn renderers(&self) -> Map<IpAddress, ConfigView> {
        self.devices().map_values(|d: RegisteredDevice| d.renderer@)
    }

    /// An empty registry.
    pub fn new() -> (r: Self)
        ensures
            r.devices() == Map::<IpAddress, RegisteredDevice>::empty(),
    {
        let r = DeviceRegistry { devices: Vec::new() };
        assert(r.devices() =~= Map::<IpAddress, RegisteredDevice>::empty());
        r
    }

    fn position(&self, ip: IpAddress) -> (r: Option<usize>)
        ensures
            r matches Some(i) ==> i < self.devices@.len() && self.devices@[i as int].0 == ip,
            r is None ==> !self.devices().contains_key(ip),
    {
        let mut i: usize = 0;
        while i < self.devices.len()
            invariant
                i <= self.devices@.len(),
                forall|j: int| 0 <= j < i ==> self.devices@[j].0 != ip,
            decreases self.devices.len() - i,
        {
            if self.devices[i].0 == ip {
                return Some(i);
            }
            i += 1;
        }
        None
    }

    /// Records `device` as the device at `ip`, replacing an earlier one.
    pub fn register(&mut self, ip: IpAddress, device: RegisteredDevice)
        ensures
            final(self).devices() == old(self).devices().insert(ip, device),
    {
        proof {
            use_type_invariant(&*self);
        }
        let ghost old_map = self.devices();
        let pos = self.position(ip);
        let mut ds: Vec<(IpAddress, RegisteredDevice)> = Vec::new();
        std::mem::swap(&mut ds, &mut self.devices);
        match pos {
            Some(i) => {
                ds.set(i, (ip, device));
                assert forall|a: int, b: int|
                    0 <= a < ds@.len() && 0 <= b < ds@.len() && a != b
                        implies #[trigger] ds@[a].0 != #[trigger] ds@[b].0 by {
                    assert(old(self).devices@[a].0 != old(self).devices@[b].0);
                }
                self.devices = ds;
                assert(self.devices() =~= old_map.insert(ip, device)) by {
                    assert forall|q: IpAddress| #[trigger] self.devices().contains_key(q) implies old_map.insert(
                        ip,
                        device,
                    ).contains_key(q) && self.devices()[q] == old_map.insert(ip, device)[q] by {
                        let j = self.index_of(q);
                        if q != ip {
                            assert(old(self).devices@[j].0 == q);
                            let oq = old(self).index_of(q);
                            assert(old(self).devices@[oq].0 == q);
                        }
                    }
                    assert forall|q: IpAddress| #[trigger] old_map.insert(ip, device).contains_key(q) implies self.devices().contains_key(q) by {
                        if q != ip {
                            let oq = old(self).index_of(q);
                            assert(self.devices@[oq].0 == q);
                        } else {
                            assert(self.devices@[i as int].0 == q);
                        }
                    }
                }
            },
            None => {
                ds.push((ip, device));
                let ghost n: int = ds@.len() - 1;
                assert forall|a: int, b: int|
                    0 <= a < ds@.len() && 0 <= b < ds@.len() && a != b
                        implies #[trigger] ds@[a].0 != #[trigger] ds@[b].0 by {
                    if a == n {
                        if old(self).devices@[b].0 == ip {
                            assert(old_map.contains_key(ip));
                        }
                    } else if b == n {
                        if old(self).devices@[a].0 == ip {
                            assert(old_map.contains_key(ip));
                        }
                    } else {
                        assert(old(self).devices@[a].0 != old(self).devices@[b].0);
                    }
                }
                self.devices = ds;
                assert(self.devices() =~= old_map.insert(ip, device)) by {
                    assert forall|q: IpAddress| #[trigger] self.devices().contains_key(q) implies old_map.insert(
                        ip,
                        device,
                    ).contains_key(q) && self.devices()[q] == old_map.insert(ip, device)[q] by {
                        let j = self.index_of(q);
                        if q != ip {
                            assert(j != n);
                            assert(old(self).devices@[j].0 == q);
                            let oq = old(self).index_of(q);
                            assert(old(self).devices@[oq].0 == q);
                        } else if j != n {
                            assert(old(self).devices@[j].0 == ip);
                        }
                    }
                    assert forall|q: IpAddress| #[trigger] old_map.insert(ip, device).contains_key(q) implies self.devices().contains_key(q) by {
                        if q != ip {
                            let oq = old(self).index_of(q);
                            assert(self.devices@[oq].0 == q);
                        } else {
                            assert(self.devices@[n].0 == q);
                        }
                    }
                }
            },
        }
    }

    /// The renderer profile of the device registered at `ip`, if any.
    pub fn get_renderer(&self, ip: &IpAddress) -> (r: Option<RendererConfiguration>)
        ensures
            r is Some <==> self.devices().contains_key(*ip),
            r matches Some(c) ==> c@ == self.devices()[*ip].renderer@,
    {
        proof {
            use_type_invariant(self);
        }
        match self.position(*ip) {
            Some(i) => {
                let ghost j = self.index_of(*ip);
                assert(self.devices@[j].0 == *ip);
                Some(self.devices[i].1.renderer.duplicate())
            },
            None => None,
        }
    }
}

/// A registered device is found again at its address with the renderer it was
/// registered with, and registering leaves the other addresses as they were.
pub proof fn lemma_register_then_lookup(
    before: DeviceRegistry,
    after: DeviceRegistry,
    ip: IpAddress,
    device: RegisteredDevice,
    other: IpAddress,
)
    requires
        after.devices() == before.devices().insert(ip, device),
        other != ip,
    ensures
        after.renderers().contains_key(ip),
        after.renderers()[ip] == device.renderer@,
        after.renderers().contains_key(other) == before.renderers().contains_key(other),
        before.renderers().contains_key(other) ==> after.renderers()[other]
            == before.renderers()[other],
{
}

} // verus!
