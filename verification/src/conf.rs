//! Process configuration as the verified core sees it: one subnet,
//! its allocation range and option values, and the static host
//! reservations.
//!
//! IPv4 addresses are 32-bit words and hardware addresses are byte
//! strings; parsing the configuration file into these plain values
//! happens outside the library.

use vstd::prelude::*;

use crate::bytes::bytes_eq;

verus! {

/// Optional debugging knobs.
#[derive(Clone, Debug, PartialEq, Eq)]
pub struct DebugConfig {
    pub hw_prefix: Option<Vec<u8>>,
}

/// Settings shared by every component.
#[derive(Clone, Debug, PartialEq, Eq)]
pub struct CommonConfig {
    pub database_dir: String,
}

/// One administered subnet: its addressing, the dynamic allocation
/// range `[range.0, range.1]` (inclusive), and the option values
/// handed to clients.
#[derive(Debug)]
pub struct Dhcp4SubnetConfig {
    pub subnet: u32,
    pub netmask: u32,
    pub range: (u32, u32),
    pub domain_name_servers: Vec<u32>,
    pub routers: Vec<u32>,
    pub broadcast_address: u32,
    pub address_lease_time: u32,
}

/// Mathematical model of a subnet configuration.
pub struct SpecSubnetConfig {
    pub subnet: u32,
    pub netmask: u32,
    pub range_lo: u32,
    pub range_hi: u32,
    pub domain_name_servers: Seq<u32>,
    pub routers: Seq<u32>,
    pub broadcast_address: u32,
    pub address_lease_time: u32,
}

impl View for Dhcp4SubnetConfig {
    type V = SpecSubnetConfig;

    open spec fn view(&self) -> SpecSubnetConfig {
        SpecSubnetConfig {
            subnet: self.subnet,
            netmask: self.netmask,
            range_lo: self.range.0,
            range_hi: self.range.1,
            domain_name_servers: self.domain_name_servers@,
            routers: self.routers@,
            broadcast_address: self.broadcast_address,
            address_lease_time: self.address_lease_time,
        }
    }
}

/// A static reservation pinning one IPv4 address to one hardware
/// address.  A reservation shadows the dynamic range.
#[derive(Clone, Debug, PartialEq, Eq)]
pub struct Dhcp4HostConfig {
    pub name: String,
    pub hardware_ethernet: Vec<u8>,
    pub fixed_address: u32,
}

/// Mathematical model of a host reservation.
pub struct SpecHostConfig {
    pub name: Seq<char>,
    pub hardware_ethernet: Seq<u8>,
    pub fixed_address: u32,
}

impl View for Dhcp4HostConfig {
    type V = SpecHostConfig;

    open spec fn view(&self) -> SpecHostConfig {
        SpecHostConfig {
            name: self.name@,
            hardware_ethernet: self.hardware_ethernet@,
            fixed_address: self.fixed_address,
        }
    }
}

/// The DHCPv4 section: the subnets (exactly one is supported) and the
/// host reservations.
#[derive(Debug)]
pub struct Dhcp4Config {
    pub subnets: Vec<Dhcp4SubnetConfig>,
    pub hosts: Vec<Dhcp4HostConfig>,
}

/// Mathematical model of the DHCPv4 section.
pub struct SpecDhcp4Config {
    pub subnets: Seq<SpecSubnetConfig>,
    pub hosts: Seq<SpecHostConfig>,
}

impl View for Dhcp4Config {
    type V = SpecDhcp4Config;

    open spec fn view(&self) -> SpecDhcp4Config {
        SpecDhcp4Config {
            subnets: self.subnets@.map_values(|s: Dhcp4SubnetConfig| s@),
            hosts: self.hosts@.map_values(|h: Dhcp4HostConfig| h@),
        }
    }
}

/// The whole process configuration.
#[derive(Debug)]
pub struct OmoiConfig {
    pub common: CommonConfig,
    pub dhcp4: Dhcp4Config,
    pub debug: Option<DebugConfig>,
}

/// A subnet the handlers can serve: a non-empty range and option
/// lists short enough for their one-byte option lengths.
pub open spec fn wf_subnet(s: SpecSubnetConfig) -> bool {
    &&& s.range_lo <= s.range_hi
    &&& s.domain_name_servers.len() <= 63
    &&& s.routers.len() <= 63
}

/// A configuration the handlers can serve: exactly one subnet, and it
/// is well-formed.  Startup fails on any other configuration.
pub open spec fn wf_config(c: SpecDhcp4Config) -> bool {
    &&& c.subnets.len() == 1
    &&& wf_subnet(c.subnets[0])
}

/// The fixed address of the first reservation whose hardware address
/// equals `hw`, if any.
pub open spec fn spec_find_host(hosts: Seq<SpecHostConfig>, hw: Seq<u8>) -> Option<u32>
    decreases hosts.len(),
{
    if hosts.len() == 0 {
        None
    } else if hosts[0].hardware_ethernet == hw {
        Some(hosts[0].fixed_address)
    } else {
        spec_find_host(hosts.drop_first(), hw)
    }
}

/// The fixed addresses of all reservations, one per host, in
/// configuration order.
pub open spec fn fixed_seq(hosts: Seq<SpecHostConfig>) -> Seq<u32> {
    hosts.map_values(|h: SpecHostConfig| h.fixed_address)
}

/// The addresses pinned by some reservation: the dynamic scan must
/// never select one of these, even inside the range.
pub open spec fn fixed_set(hosts: Seq<SpecHostConfig>) -> Set<u32> {
    Set::new(
        |ip: u32| exists|i: int| 0 <= i < hosts.len() && (#[trigger] hosts[i]).fixed_address == ip,
    )
}

/// Listing the fixed addresses reaches exactly the pinned set.
pub proof fn lemma_fixed_seq_set(hosts: Seq<SpecHostConfig>)
    ensures
        forall|ip: u32| fixed_seq(hosts).contains(ip) <==> fixed_set(hosts).contains(ip),
{
    assert forall|ip: u32| fixed_seq(hosts).contains(ip) implies fixed_set(hosts).contains(
        ip,
    ) by {
        let i = choose|i: int| 0 <= i < fixed_seq(hosts).len() && fixed_seq(hosts)[i] == ip;
        assert(hosts[i].fixed_address == ip);
    }
    assert forall|ip: u32| fixed_set(hosts).contains(ip) implies fixed_seq(hosts).contains(
        ip,
    ) by {
        let i = choose|i: int| 0 <= i < hosts.len() && (#[trigger] hosts[i]).fixed_address == ip;
        assert(fixed_seq(hosts)[i] == ip);
    }
}

/// Appends every reservation's fixed address to the list.
pub fn append_fixed_addresses(out: &mut Vec<u32>, hosts: &Vec<Dhcp4HostConfig>)
    ensures
        final(out)@ == old(out)@ + fixed_seq(hosts@.map_values(|h: Dhcp4HostConfig| h@)),
{
    let ghost all = fixed_seq(hosts@.map_values(|h: Dhcp4HostConfig| h@));
    let mut i: usize = 0;
    while i < hosts.len()
        invariant
            i <= hosts@.len(),
            all == fixed_seq(hosts@.map_values(|h: Dhcp4HostConfig| h@)),
            all.len() == hosts@.len(),
            out@ == old(out)@ + all.take(i as int),
        decreases hosts@.len() - i,
    {
        proof {
            assert(all[i as int] == hosts@[i as int]@.fixed_address);
        }
        out.push(hosts[i].fixed_address);
        i = i + 1;
        assert(out@ =~= old(out)@ + all.take(i as int));
    }
    assert(out@ =~= old(out)@ + all);
}

/// Looks up a static reservation for a hardware address.
pub fn find_host(hosts: &Vec<Dhcp4HostConfig>, hw: &Vec<u8>) -> (r: Option<u32>)
    ensures
        r == spec_find_host(hosts@.map_values(|h: Dhcp4HostConfig| h@), hw@),
{
    let ghost all = hosts@.map_values(|h: Dhcp4HostConfig| h@);
    let mut i: usize = 0;
    assert(all.skip(0) =~= all);
    while i < hosts.len()
        invariant
            i <= hosts@.len(),
            all == hosts@.map_values(|h: Dhcp4HostConfig| h@),
            spec_find_host(all, hw@) == spec_find_host(all.skip(i as int), hw@),
        decreases hosts@.len() - i,
    {
        proof {
            let t = all.skip(i as int);
            assert(t[0] == hosts@[i as int]@);
            assert(t.drop_first() =~= all.skip(i as int + 1));
        }
        if bytes_eq(&hosts[i].hardware_ethernet, hw) {
            return Some(hosts[i].fixed_address);
        }
        i = i + 1;
    }
    proof {
        assert(all.skip(all.len() as int) =~= Seq::<SpecHostConfig>::empty());
    }
    None
}

/// Whether the handlers can serve this configuration.
pub fn config_servable(c: &Dhcp4Config) -> (r: bool)
    ensures
        r == wf_config(c@),
{
    if c.subnets.len() != 1 {
        return false;
    }
    let s = &c.subnets[0];
    assert(c@.subnets[0] == c.subnets@[0]@);
    s.range.0 <= s.range.1 && s.domain_name_servers.len() <= 63 && s.routers.len() <= 63
}

} // verus!

