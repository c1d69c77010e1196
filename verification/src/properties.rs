//! What is known of a peripheral from its advertisements, and the shape of
//! one advertisement report.

use crate::address::{AddressType, BDAddr};
use std::collections::HashMap;
use vstd::prelude::*;
use vstd::std_specs::hash::*;

verus! {

broadcast use group_hash_axioms;

/// The byte rows behind a map of byte vectors.
pub open spec fn payloads<K>(m: Map<K, Vec<u8>>) -> Map<K, Seq<u8>> {
    Map::new(|k: K| m.contains_key(k), |k: K| m[k]@)
}

/// The entries behind a list of keyed byte vectors.
pub open spec fn entries<K>(deltas: Seq<(K, Vec<u8>)>) -> Seq<(K, Seq<u8>)> {
    Seq::new(deltas.len(), |i: int| (deltas[i].0, deltas[i].1@))
}

/// The properties of a peripheral, as merged from the advertisement reports
/// received for it.
#[derive(Debug, Default)]
pub struct PeripheralProperties {
    /// The address of the peripheral.
    pub address: BDAddr,
    /// Whether that address is public or random.
    pub address_type: AddressType,
    /// The name that the device gives itself.
    pub local_name: Option<String>,
    /// The transmission power level of the device.
    pub tx_power_level: Option<i8>,
    /// Data of the device's manufacturer, by manufacturer ID.
    pub manufacturer_data: HashMap<u16, Vec<u8>>,
    /// Data of a service, by the 128-bit UUID of the service.
    pub service_data: HashMap<u128, Vec<u8>>,
    /// The 128-bit UUIDs of the advertised services, in advertised order.
    pub services: Vec<u128>,
    /// How many advertisement reports were merged into these properties.
    pub discovery_count: u32,
    /// Whether any of those reports was a scan response.
    pub has_scan_response: bool,
}

/// The mathematical content of [`PeripheralProperties`].
pub struct PropertiesView {
    pub address: BDAddr,
    pub address_type: AddressType,
    pub local_name: Option<Seq<char>>,
    pub tx_power_level: Option<i8>,
    pub manufacturer_data: Map<u16, Seq<u8>>,
    pub service_data: Map<u128, Seq<u8>>,
    pub services: Seq<u128>,
    pub discovery_count: nat,
    pub has_scan_response: bool,
}

/// The characters of an optional string.
pub open spec fn name_view(name: Option<String>) -> Option<Seq<char>> {
    match name {
        Some(s) => Some(s@),
        None => None,
    }
}

impl View for PeripheralProperties {
    type V = PropertiesView;

    open spec fn view(&self) -> PropertiesView {
        PropertiesView {
            address: self.address,
            address_type: self.address_type,
            local_name: name_view(self.local_name),
            tx_power_level: self.tx_power_level,
            manufacturer_data: payloads(self.manufacturer_data@),
            service_data: payloads(self.service_data@),
            services: self.services@,
            discovery_count: self.discovery_count as nat,
            has_scan_response: self.has_scan_response,
        }
    }
}

/// One advertisement report for a peripheral. A single packet rarely
/// carries everything, so every part may be absent or empty.
#[derive(Debug)]
pub struct AdvertisementReport {
    /// Whether the reporting address is public or random.
    pub address_type: AddressType,
    /// The name in the packet, if it carries one.
    pub local_name: Option<String>,
    /// The transmission power level in the packet, if it carries one.
    pub tx_power_level: Option<i8>,
    /// The manufacturer data in the packet, by manufacturer ID, in packet order.
    pub manufacturer_data: Vec<(u16, Vec<u8>)>,
    /// The service data in the packet, by service UUID, in packet order.
    pub service_data: Vec<(u128, Vec<u8>)>,
    /// The service UUIDs in the packet; empty where it lists none.
    pub services: Vec<u128>,
    /// Whether the packet is a scan response rather than an advertisement.
    pub is_scan_response: bool,
}

/// The mathematical content of an [`AdvertisementReport`].
pub struct ReportView {
    pub address_type: AddressType,
    pub local_name: Option<Seq<char>>,
    pub tx_power_level: Option<i8>,
    pub manufacturer_data: Seq<(u16, Seq<u8>)>,
    pub service_data: Seq<(u128, Seq<u8>)>,
    pub services: Seq<u128>,
    pub is_scan_response: bool,
}

impl View for AdvertisementReport {
    type V = ReportView;

    open spec fn view(&self) -> ReportView {
        ReportView {
            address_type: self.address_type,
            local_name: name_view(self.local_name),
            tx_power_level: self.tx_power_level,
            manufacturer_data: entries(self.manufacturer_data@),
            service_data: entries(self.service_data@),
            services: self.services@,
            is_scan_response: self.is_scan_response,
        }
    }
}

/// A copy of a byte vector.
pub fn copy_bytes(v: &Vec<u8>) -> (r: Vec<u8>)
    ensures
        r@ == v@,
{
    let mut out: Vec<u8> = Vec::new();
    let mut i: usize = 0;
    while i < v.len()
        invariant
            i <= v.len(),
            out@ == v@.take(i as int),
        decreases v.len() - i,
    {
        out.push(v[i]);
        assert(v@.take(i + 1) =~= v@.take(i as int).push(v@[i as int]));
        i += 1;
    }
    assert(v@.take(v.len() as int) =~= v@);
    out
}

/// A copy of a list of UUIDs.
pub fn copy_uuids(v: &Vec<u128>) -> (r: Vec<u128>)
    ensures
        r@ == v@,
{
    let mut out: Vec<u128> = Vec::new();
    let mut i: usize = 0;
    while i < v.len()
        invariant
            i <= v.len(),
            out@ == v@.take(i as int),
        decreases v.len() - i,
    {
        out.push(v[i]);
        assert(v@.take(i + 1) =~= v@.take(i as int).push(v@[i as int]));
        i += 1;
    }
    assert(v@.take(v.len() as int) =~= v@);
    out
}

/// Whether two byte vectors hold the same bytes.
pub fn same_bytes(a: &Vec<u8>, b: &Vec<u8>) -> (r: bool)
    ensures
        r == (a@ == b@),
{
    if a.len() != b.len() {
        return false;
    }
    let mut i: usize = 0;
    while i < a.len()
        invariant
            i <= a.len(),
            a.len() == b.len(),
            forall|j: int| 0 <= j < i ==> a@[j] == b@[j],
        decreases a.len() - i,
    {
        if a[i] != b[i] {
            return false;
        }
        i += 1;
    }
    assert(a@ =~= b@);
    true
}

/// Whether two lists of UUIDs hold the same UUIDs in the same order.
pub fn same_uuids(a: &Vec<u128>, b: &Vec<u128>) -> (r: bool)
    ensures
        r == (a@ == b@),
{
    if a.len() != b.len() {
        return false;
    }
    let mut i: usize = 0;
    while i < a.len()
        invariant
            i <= a.len(),
            a.len() == b.len(),
            forall|j: int| 0 <= j < i ==> a@[j] == b@[j],
        decreases a.len() - i,
    {
        if a[i] != b[i] {
            return false;
        }
        i += 1;
    }
    assert(a@ =~= b@);
    true
}

/// A copy of an optional name.
pub fn copy_name(name: &Option<String>) -> (r: Option<String>)
    ensures
        name_view(r) == name_view(*name),
{
    match name {
        Some(s) => Some(s.clone()),
        None => None,
    }
}

impl Clone for PeripheralProperties {
    fn clone(&self) -> (r: PeripheralProperties)
        ensures
            r@ == self@,
    {
        let r = PeripheralProperties {
            address: self.address,
            address_type: self.address_type,
            local_name: copy_name(&self.local_name),
            tx_power_level: self.tx_power_level,
            manufacturer_data: self.manufacturer_data.clone(),
            service_data: self.service_data.clone(),
            services: copy_uuids(&self.services),
            discovery_count: self.discovery_count,
            has_scan_response: self.has_scan_response,
        };
        assert(r@.manufacturer_data =~= self@.manufacturer_data);
        assert(r@.service_data =~= self@.service_data);
        r
    }
}

} // verus!
