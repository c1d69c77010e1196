//! Folding an advertisement report into the properties of a peripheral.
//!
//! The merge is biased to the report: where the report carries a value it
//! replaces the stored one, and where it carries none the stored one stays.
//! Nothing here locks or performs I/O.

use crate::address::{AddressType, BDAddr};
use crate::properties::{
    copy_bytes, copy_uuids, entries, name_view, payloads, same_bytes, same_uuids,
    AdvertisementReport, PeripheralProperties, PropertiesView, ReportView,
};
use std::collections::HashMap;
use std::hash::Hash;
use vstd::prelude::*;
use vstd::std_specs::hash::*;

verus! {

broadcast use group_hash_axioms;

/// A stored map after a list of keyed payloads was written into it in list
/// order: each entry replaces the payload of its key and leaves the other
/// keys alone.
pub open spec fn apply_deltas<K>(stored: Map<K, Seq<u8>>, deltas: Seq<(K, Seq<u8>)>) -> Map<
    K,
    Seq<u8>,
>
    decreases deltas.len(),
{
    if deltas.len() == 0 {
        stored
    } else {
        apply_deltas(stored, deltas.drop_last()).insert(deltas.last().0, deltas.last().1)
    }
}

/// The entries of a list that change the stored map when the list is written
/// into it in list order: those whose key has no payload yet, or another one.
pub open spec fn changed_deltas<K>(stored: Map<K, Seq<u8>>, deltas: Seq<(K, Seq<u8>)>) -> Seq<
    (K, Seq<u8>),
>
    decreases deltas.len(),
{
    if deltas.len() == 0 {
        Seq::empty()
    } else {
        let before = apply_deltas(stored, deltas.drop_last());
        let earlier = changed_deltas(stored, deltas.drop_last());
        let entry = deltas.last();
        if before.contains_key(entry.0) && before[entry.0] == entry.1 {
            earlier
        } else {
            earlier.push(entry)
        }
    }
}

/// The payload that a list of keyed payloads gives a key in the end: that of
/// the last entry with this key, if there is one.
pub open spec fn last_delta<K>(deltas: Seq<(K, Seq<u8>)>, key: K) -> Option<Seq<u8>>
    decreases deltas.len(),
{
    if deltas.len() == 0 {
        None
    } else if deltas.last().0 == key {
        Some(deltas.last().1)
    } else {
        last_delta(deltas.drop_last(), key)
    }
}

/// The name after a merge: the reported one where it is not empty, else the
/// stored one.
pub open spec fn merged_name(stored: Option<Seq<char>>, reported: Option<Seq<char>>) -> Option<
    Seq<char>,
> {
    match reported {
        Some(name) => if name.len() > 0 {
            reported
        } else {
            stored
        },
        None => stored,
    }
}

/// The transmission power after a merge: the reported one where there is one.
pub open spec fn merged_tx_power(stored: Option<i8>, reported: Option<i8>) -> Option<i8> {
    if reported is Some {
        reported
    } else {
        stored
    }
}

/// The service list after a merge: the reported one where it is not empty.
pub open spec fn merged_services(stored: Seq<u128>, reported: Seq<u128>) -> Seq<u128> {
    if reported.len() > 0 {
        reported
    } else {
        stored
    }
}

/// The properties of a peripheral of which no report was merged yet.
pub open spec fn fresh_properties(address: BDAddr, address_type: AddressType) -> PropertiesView {
    PropertiesView {
        address,
        address_type,
        local_name: None,
        tx_power_level: None,
        manufacturer_data: Map::empty(),
        service_data: Map::empty(),
        services: Seq::empty(),
        discovery_count: 0,
        has_scan_response: false,
    }
}

/// Stored properties after one report was merged into them.
pub open spec fn merge_spec(stored: PropertiesView, report: ReportView) -> PropertiesView {
    PropertiesView {
        address: stored.address,
        address_type: stored.address_type,
        local_name: merged_name(stored.local_name, report.local_name),
        tx_power_level: merged_tx_power(stored.tx_power_level, report.tx_power_level),
        manufacturer_data: apply_deltas(stored.manufacturer_data, report.manufacturer_data),
        service_data: apply_deltas(stored.service_data, report.service_data),
        services: merged_services(stored.services, report.services),
        discovery_count: stored.discovery_count + 1,
        has_scan_response: stored.has_scan_response || report.is_scan_response,
    }
}

/// What a report is merged into: the stored properties, or fresh ones under
/// the reporting address and its type where nothing is stored.
pub open spec fn merge_base(
    existing: Option<PropertiesView>,
    address: BDAddr,
    report: ReportView,
) -> PropertiesView {
    match existing {
        Some(stored) => stored,
        None => fresh_properties(address, report.address_type),
    }
}

/// The properties after a report for `address` was merged into what was
/// stored for it, if anything was.
pub open spec fn merge_report_spec(
    existing: Option<PropertiesView>,
    address: BDAddr,
    report: ReportView,
) -> PropertiesView {
    merge_spec(merge_base(existing, address, report), report)
}

/// What a merge changed.
#[derive(Debug)]
pub struct MergeChanges {
    /// Nothing was stored for the peripheral before this report.
    pub first_discovery: bool,
    /// The stored name is another one than before.
    pub name_changed: bool,
    /// The stored service list is another one than before.
    pub services_changed: bool,
    /// The manufacturer-data entries of the report that changed the stored
    /// payload of their ID, in report order.
    pub manufacturer_data: Vec<(u16, Vec<u8>)>,
    /// The service-data entries of the report that changed the stored
    /// payload of their UUID, in report order.
    pub service_data: Vec<(u128, Vec<u8>)>,
}

/// The mathematical content of [`MergeChanges`].
pub struct ChangesView {
    pub first_discovery: bool,
    pub name_changed: bool,
    pub services_changed: bool,
    pub manufacturer_data: Seq<(u16, Seq<u8>)>,
    pub service_data: Seq<(u128, Seq<u8>)>,
}

impl View for MergeChanges {
    type V = ChangesView;

    open spec fn view(&self) -> ChangesView {
        ChangesView {
            first_discovery: self.first_discovery,
            name_changed: self.name_changed,
            services_changed: self.services_changed,
            manufacturer_data: entries(self.manufacturer_data@),
            service_data: entries(self.service_data@),
        }
    }
}

/// What merging a report into `existing` changes.
pub open spec fn changes_spec(
    existing: Option<PropertiesView>,
    address: BDAddr,
    report: ReportView,
) -> ChangesView {
    let base = merge_base(existing, address, report);
    ChangesView {
        first_discovery: existing is None,
        name_changed: merged_name(base.local_name, report.local_name) != base.local_name,
        services_changed: merged_services(base.services, report.services) != base.services,
        manufacturer_data: changed_deltas(base.manufacturer_data, report.manufacturer_data),
        service_data: changed_deltas(base.service_data, report.service_data),
    }
}

/// Writes a list of keyed payloads into a stored map in list order, and
/// returns the entries that changed it.
pub fn merge_payloads<K: Copy + Eq + Hash>(
    stored: &mut HashMap<K, Vec<u8>>,
    deltas: &Vec<(K, Vec<u8>)>,
) -> (changed: Vec<(K, Vec<u8>)>)
    requires
        obeys_key_model::<K>(),
    ensures
        payloads(final(stored)@) == apply_deltas(payloads(old(stored)@), entries(deltas@)),
        entries(changed@) == changed_deltas(payloads(old(stored)@), entries(deltas@)),
{
    let ghost prior = payloads(stored@);
    let ghost all = entries(deltas@);
    let mut changed: Vec<(K, Vec<u8>)> = Vec::new();
    let mut i: usize = 0;
    assert(all.take(0) =~= Seq::empty());
    assert(entries(changed@) =~= Seq::empty());
    while i < deltas.len()
        invariant
            i <= deltas.len(),
            obeys_key_model::<K>(),
            all == entries(deltas@),
            payloads(stored@) == apply_deltas(prior, all.take(i as int)),
            entries(changed@) == changed_deltas(prior, all.take(i as int)),
        decreases deltas.len() - i,
    {
        let key: K = deltas[i].0;
        let ghost before = payloads(stored@);
        let ghost earlier = entries(changed@);
        proof {
            assert(all.take(i + 1).drop_last() =~= all.take(i as int));
            assert(all.take(i + 1).last() == (key, deltas@[i as int].1@));
        }
        let same: bool = match stored.get(&key) {
            Some(payload) => same_bytes(payload, &deltas[i].1),
            None => false,
        };
        if same {
            assert(before.insert(key, deltas@[i as int].1@) =~= before);
        } else {
            changed.push((key, copy_bytes(&deltas[i].1)));
            stored.insert(key, copy_bytes(&deltas[i].1));
            assert(payloads(stored@) =~= before.insert(key, deltas@[i as int].1@));
            assert(entries(changed@) =~= earlier.push((key, deltas@[i as int].1@)));
        }
        i += 1;
    }
    assert(all.take(deltas.len() as int) =~= all);
    changed
}


/// Whether two optional names hold the same characters.
fn same_name(a: &Option<String>, b: &Option<String>) -> (r: bool)
    ensures
        r == (name_view(*a) == name_view(*b)),
{
    match (a, b) {
        (Some(x), Some(y)) => *x == *y,
        (None, None) => true,
        _ => false,
    }
}

/// Merges one report into stored properties and says what changed.
///
/// The address and its type stay; the name is replaced by a reported name
/// that is not empty; the transmission power by a reported one; each
/// reported manufacturer-data and service-data entry replaces the payload of
/// its key; a reported service list that is not empty replaces the stored
/// one; the report counter grows by one; and a scan response, once seen,
/// stays seen.
pub fn merge_into(props: &mut PeripheralProperties, report: &AdvertisementReport) -> (changes:
    MergeChanges)
    requires
        old(props).discovery_count < u32::MAX,
    ensures
        final(props)@ == merge_spec(old(props)@, report@),
        changes@ == changes_spec(Some(old(props)@), old(props).address, report@),
{
    let ghost stored = props@;
    let mut name_changed: bool = false;
    match &report.local_name {
        Some(name) => {
            if !name.as_str().is_empty() {
                let reported: Option<String> = Some(name.clone());
                name_changed = !same_name(&reported, &props.local_name);
                props.local_name = reported;
            }
        },
        None => {},
    }
    match report.tx_power_level {
        Some(level) => {
            props.tx_power_level = Some(level);
        },
        None => {},
    }
    let manufacturer_data = merge_payloads(&mut props.manufacturer_data, &report.manufacturer_data);
    let service_data = merge_payloads(&mut props.service_data, &report.service_data);
    let mut services_changed: bool = false;
    if report.services.len() > 0 {
        services_changed = !same_uuids(&report.services, &props.services);
        props.services = copy_uuids(&report.services);
    }
    props.discovery_count = props.discovery_count + 1;
    if report.is_scan_response {
        props.has_scan_response = true;
    }
    let changes = MergeChanges {
        first_discovery: false,
        name_changed,
        services_changed,
        manufacturer_data,
        service_data,
    };
    assert(props@.manufacturer_data =~= merge_spec(stored, report@).manufacturer_data);
    assert(props@.service_data =~= merge_spec(stored, report@).service_data);
    changes
}

/// The properties of a peripheral at `address` of which nothing is known yet.
pub fn new_properties(address: BDAddr, address_type: AddressType) -> (r: PeripheralProperties)
    ensures
        r@ == fresh_properties(address, address_type),
{
    let r = PeripheralProperties {
        address,
        address_type,
        local_name: None,
        tx_power_level: None,
        manufacturer_data: HashMap::new(),
        service_data: HashMap::new(),
        services: Vec::new(),
        discovery_count: 0,
        has_scan_response: false,
    };
    assert(r@.manufacturer_data =~= Map::empty());
    assert(r@.service_data =~= Map::empty());
    assert(r@.services =~= Seq::empty());
    r
}

/// The content of optional properties.
pub open spec fn properties_view(existing: Option<PeripheralProperties>) -> Option<
    PropertiesView,
> {
    match existing {
        Some(p) => Some(p@),
        None => None,
    }
}

/// Merges a report for `address` into the properties stored for it, or into
/// fresh ones where none are stored, and says what changed.
pub fn merge_report(
    existing: Option<PeripheralProperties>,
    address: BDAddr,
    report: &AdvertisementReport,
) -> (r: (PeripheralProperties, MergeChanges))
    requires
        existing matches Some(p) ==> p.discovery_count < u32::MAX,
    ensures
        r.0@ == merge_report_spec(properties_view(existing), address, report@),
        r.1@ == changes_spec(properties_view(existing), address, report@),
{
    match existing {
        Some(stored) => {
            let mut props = stored;
            let changes = merge_into(&mut props, report);
            (props, changes)
        },
        None => {
            let mut props = new_properties(address, report.address_type);
            let mut changes = merge_into(&mut props, report);
            changes.first_discovery = true;
            (props, changes)
        },
    }
}

} // verus!
