//! The peripherals seen so far, by address.
//!
//! A record is made when the first advertisement report for an address
//! arrives, or when a connection to an address never seen is asked for. It
//! is then kept for as long as the registry lives. Callers get copies of
//! records, never the records themselves.

use crate::address::{lemma_key_determines_address, AddressType, BDAddr};
use crate::characteristic::{characteristic_set, is_characteristic_set, Characteristic};
use crate::error::Error;
use crate::merge::{
    changes_spec, fresh_properties, merge_into, merge_report, merge_report_spec, new_properties,
    MergeChanges,
};
use crate::properties::{AdvertisementReport, PeripheralProperties, PropertiesView, ReportView};
use vstd::prelude::*;

verus! {

/// What is known of one peripheral.
#[derive(Debug)]
pub struct DeviceRecord {
    /// The properties merged from its advertisement reports.
    pub properties: PeripheralProperties,
    /// The characteristics of its last discovery, in rising order; empty
    /// until a discovery was made.
    pub characteristics: Vec<Characteristic>,
    /// Whether a connection to it stands.
    pub connected: bool,
}

/// The mathematical content of a [`DeviceRecord`].
pub struct RecordView {
    pub properties: PropertiesView,
    pub characteristics: Seq<Characteristic>,
    pub connected: bool,
}

impl View for DeviceRecord {
    type V = RecordView;

    open spec fn view(&self) -> RecordView {
        RecordView {
            properties: self.properties@,
            characteristics: self.characteristics@,
            connected: self.connected,
        }
    }
}

impl Clone for DeviceRecord {
    fn clone(&self) -> (r: DeviceRecord)
        ensures
            r@ == self@,
    {
        let mut characteristics: Vec<Characteristic> = Vec::new();
        let mut i: usize = 0;
        while i < self.characteristics.len()
            invariant
                i <= self.characteristics.len(),
                characteristics@ == self.characteristics@.take(i as int),
            decreases self.characteristics.len() - i,
        {
            characteristics.push(self.characteristics[i]);
            assert(self.characteristics@.take(i + 1) =~= self.characteristics@.take(i as int).push(
                self.characteristics@[i as int],
            ));
            i += 1;
        }
        assert(self.characteristics@.take(self.characteristics.len() as int)
            =~= self.characteristics@);
        DeviceRecord {
            properties: self.properties.clone(),
            characteristics,
            connected: self.connected,
        }
    }
}

/// The record of a peripheral of which only the address is known: no report
/// merged, no characteristics, not connected.
pub open spec fn minimal_record(address: BDAddr, address_type: AddressType) -> RecordView {
    RecordView {
        properties: fresh_properties(address, address_type),
        characteristics: Seq::empty(),
        connected: false,
    }
}

/// The properties of an optional record.
pub open spec fn record_properties(existing: Option<RecordView>) -> Option<PropertiesView> {
    match existing {
        Some(r) => Some(r.properties),
        None => None,
    }
}

/// The record for `address` after a report was merged into it; where there
/// was none, into a new record without characteristics and connection.
pub open spec fn upserted_record(
    existing: Option<RecordView>,
    address: BDAddr,
    report: ReportView,
) -> RecordView {
    let properties = merge_report_spec(record_properties(existing), address, report);
    match existing {
        Some(r) => RecordView { properties, ..r },
        None => RecordView { properties, characteristics: Seq::empty(), connected: false },
    }
}

/// What a map holds under a key, if anything.
pub open spec fn lookup(m: Map<BDAddr, RecordView>, address: BDAddr) -> Option<RecordView> {
    if m.contains_key(address) {
        Some(m[address])
    } else {
        None
    }
}

/// The registry after a report for `address` was merged.
pub open spec fn upsert_spec(
    m: Map<BDAddr, RecordView>,
    address: BDAddr,
    report: ReportView,
) -> Map<BDAddr, RecordView> {
    m.insert(address, upserted_record(lookup(m, address), address, report))
}

/// The registry after the connection flag of `address` was set; an unknown
/// address changes nothing.
pub open spec fn mark_connected_spec(
    m: Map<BDAddr, RecordView>,
    address: BDAddr,
    connected: bool,
) -> Map<BDAddr, RecordView> {
    if m.contains_key(address) {
        m.insert(address, RecordView { connected, ..m[address] })
    } else {
        m
    }
}

/// The connection flag recorded for `address`, if the address is known.
pub open spec fn connected_spec(m: Map<BDAddr, RecordView>, address: BDAddr) -> Option<bool> {
    if m.contains_key(address) {
        Some(m[address].connected)
    } else {
        None
    }
}

/// The registry after it was made sure that `address` has a record: a known
/// address keeps its record, an unknown one gets a minimal record.
pub open spec fn ensure_record_spec(
    m: Map<BDAddr, RecordView>,
    address: BDAddr,
    address_type: AddressType,
) -> Map<BDAddr, RecordView> {
    if m.contains_key(address) {
        m
    } else {
        m.insert(address, minimal_record(address, address_type))
    }
}

/// Whether some record of a row is that of `address`.
spec fn has_address(records: Seq<DeviceRecord>, address: BDAddr) -> bool {
    exists|i: int| 0 <= i < records.len() && (#[trigger] records[i]).properties.address == address
}

/// The place in a row of the record of `address`.
spec fn place(records: Seq<DeviceRecord>, address: BDAddr) -> int {
    choose|i: int| 0 <= i < records.len() && (#[trigger] records[i]).properties.address == address
}

/// Whether the addresses of a row rise strictly.
spec fn rising(records: Seq<DeviceRecord>) -> bool {
    forall|i: int, j: int|
        #![trigger records[i], records[j]]
        0 <= i < j < records.len() ==> records[i].properties.address.spec_key()
            < records[j].properties.address.spec_key()
}

/// Whether the characteristics of each record of a row are a set in rising
/// order.
spec fn sets_in_order(records: Seq<DeviceRecord>) -> bool {
    forall|i: int|
        0 <= i < records.len() ==> is_characteristic_set((#[trigger] records[i]).characteristics@)
}

/// The records of a row, by address.
spec fn records_of(records: Seq<DeviceRecord>) -> Map<BDAddr, RecordView> {
    Map::new(|a: BDAddr| has_address(records, a), |a: BDAddr| records[place(records, a)]@)
}

/// In a row with rising addresses an address is at one place only.
proof fn lemma_place(records: Seq<DeviceRecord>, i: int)
    requires
        rising(records),
        0 <= i < records.len(),
    ensures
        has_address(records, records[i].properties.address),
        place(records, records[i].properties.address) == i,
        records_of(records).contains_key(records[i].properties.address),
        records_of(records)[records[i].properties.address] == records[i]@,
{
    let a = records[i].properties.address;
    let k = place(records, a);
    assert(0 <= k < records.len() && records[k].properties.address == a);
    if k < i {
        assert(records[k].properties.address.spec_key() < records[i].properties.address.spec_key());
    } else if i < k {
        assert(records[i].properties.address.spec_key() < records[k].properties.address.spec_key());
    }
}

/// A row in which one record was replaced by another of the same address
/// holds that record under the address, and the others as before.
proof fn lemma_replaced(before: Seq<DeviceRecord>, after: Seq<DeviceRecord>, i: int)
    requires
        rising(before),
        0 <= i < before.len(),
        after.len() == before.len(),
        forall|k: int| 0 <= k < before.len() && k != i ==> #[trigger] after[k] == before[k],
        after[i].properties.address == before[i].properties.address,
    ensures
        rising(after),
        records_of(after) == records_of(before).insert(before[i].properties.address, after[i]@),
{
    assert forall|a: int, b: int|
        #![trigger after[a], after[b]]
        0 <= a < b < after.len() implies after[a].properties.address.spec_key()
        < after[b].properties.address.spec_key() by {
        assert(before[a].properties.address.spec_key() < before[b].properties.address.spec_key());
    }
    let expected = records_of(before).insert(before[i].properties.address, after[i]@);
    assert forall|x: BDAddr| #[trigger]
        records_of(after).dom().contains(x) == expected.dom().contains(x) by {
        if has_address(after, x) {
            let k = place(after, x);
            assert(before[k].properties.address == x);
        }
        if has_address(before, x) {
            let k = place(before, x);
            assert(after[k].properties.address == x);
        }
        if x == before[i].properties.address {
            assert(after[i].properties.address == x);
        }
    }
    assert forall|x: BDAddr| records_of(after).dom().contains(x) implies #[trigger]
        records_of(after)[x] == expected[x] by {
        let k = place(after, x);
        lemma_place(after, k);
        lemma_place(before, k);
    }
    assert(records_of(after) =~= expected);
}

/// A row into which a record was put between the lower and the higher
/// addresses holds that record under its address, and the others as before.
proof fn lemma_inserted(before: Seq<DeviceRecord>, after: Seq<DeviceRecord>, i: int)
    requires
        rising(before),
        0 <= i <= before.len(),
        after.len() == before.len() + 1,
        forall|k: int| 0 <= k < i ==> #[trigger] after[k] == before[k],
        forall|k: int| i < k < after.len() ==> #[trigger] after[k] == before[k - 1],
        forall|k: int|
            0 <= k < i ==> (#[trigger] before[k]).properties.address.spec_key()
                < after[i].properties.address.spec_key(),
        forall|k: int|
            i <= k < before.len() ==> after[i].properties.address.spec_key() < (
            #[trigger] before[k]).properties.address.spec_key(),
    ensures
        rising(after),
        !records_of(before).contains_key(after[i].properties.address),
        records_of(after) == records_of(before).insert(after[i].properties.address, after[i]@),
{
    let rec = after[i];
    assert forall|a: int, b: int|
        #![trigger after[a], after[b]]
        0 <= a < b < after.len() implies after[a].properties.address.spec_key()
        < after[b].properties.address.spec_key() by {
        let x = if a < i { a } else { a - 1 };
        let y = if b < i { b } else { b - 1 };
        if a != i && b != i {
            assert(before[x].properties.address.spec_key() < before[y].properties.address.spec_key());
        } else if a == i {
            assert(after[b] == before[y]);
            assert(rec.properties.address.spec_key() < before[y].properties.address.spec_key());
        } else {
            assert(after[a] == before[x]);
            assert(before[x].properties.address.spec_key() < rec.properties.address.spec_key());
        }
    }
    if has_address(before, rec.properties.address) {
        let k = place(before, rec.properties.address);
        if k < i {
            assert(before[k].properties.address.spec_key() < rec.properties.address.spec_key());
        } else {
            assert(rec.properties.address.spec_key() < before[k].properties.address.spec_key());
        }
    }
    let expected = records_of(before).insert(rec.properties.address, rec@);
    assert forall|x: BDAddr| #[trigger]
        records_of(after).dom().contains(x) == expected.dom().contains(x) by {
        if has_address(after, x) {
            let k = place(after, x);
            if k < i {
                assert(before[k].properties.address == x);
            } else if k > i {
                assert(before[k - 1].properties.address == x);
            }
        }
        if has_address(before, x) {
            let k = place(before, x);
            if k < i {
                assert(after[k].properties.address == x);
            } else {
                assert(after[k + 1].properties.address == x);
            }
        }
        if x == rec.properties.address {
            assert(after[i].properties.address == x);
        }
    }
    assert forall|x: BDAddr| records_of(after).dom().contains(x) implies #[trigger]
        records_of(after)[x] == expected[x] by {
        let k = place(after, x);
        lemma_place(after, k);
        if k < i {
            lemma_place(before, k);
        } else if k > i {
            assert(after[k - 1 + 1] == before[k - 1]);
            lemma_place(before, k - 1);
        }
    }
    assert(records_of(after) =~= expected);
}

/// The peripherals seen so far, each under its address.
pub struct DeviceRegistry {
    records: Vec<DeviceRecord>,
}

impl View for DeviceRegistry {
    type V = Map<BDAddr, RecordView>;

    closed spec fn view(&self) -> Map<BDAddr, RecordView> {
        records_of(self.records@)
    }
}

impl DeviceRegistry {
    /// Whether the registry is in order inside: one record for each address,
    /// kept by rising address.
    pub closed spec fn wf(&self) -> bool {
        rising(self.records@) && sets_in_order(self.records@)
    }

    /// The characteristics of every record are a set in rising order.
    pub proof fn lemma_record_characteristics(&self, address: BDAddr)
        requires
            self.wf(),
            self@.contains_key(address),
        ensures
            is_characteristic_set(self@[address].characteristics),
    {
        let k = place(self.records@, address);
        assert(is_characteristic_set(self.records@[k].characteristics@));
    }

    /// Every record is kept under the address that its properties name.
    pub proof fn lemma_record_address(&self, address: BDAddr)
        requires
            self.wf(),
            self@.contains_key(address),
        ensures
            self@[address].properties.address == address,
    {
        let k = place(self.records@, address);
        assert(self.records@[k].properties.address == address);
    }

    /// A registry without records.
    pub fn new() -> (r: DeviceRegistry)
        ensures
            r.wf(),
            r@ == Map::<BDAddr, RecordView>::empty(),
    {
        let r = DeviceRegistry { records: Vec::new() };
        assert(r@ =~= Map::<BDAddr, RecordView>::empty());
        r
    }

    /// The place at which the record of an address with the number `key`
    /// stands or would have to stand, and whether it stands there.
    fn locate(&self, key: u64) -> (r: (usize, bool))
        requires
            self.wf(),
        ensures
            r.0 <= self.records@.len(),
            forall|k: int|
                0 <= k < r.0 ==> (#[trigger] self.records@[k]).properties.address.spec_key() < key,
            r.1 ==> r.0 < self.records@.len() && self.records@[r.0 as int].properties.address.spec_key()
                == key,
            !r.1 ==> forall|k: int|
                r.0 <= k < self.records@.len() ==> key < (
                #[trigger] self.records@[k]).properties.address.spec_key(),
    {
        let mut low: usize = 0;
        let mut high: usize = self.records.len();
        while low < high
            invariant
                low <= high <= self.records@.len(),
                self.wf(),
                forall|k: int|
                    0 <= k < low ==> (#[trigger] self.records@[k]).properties.address.spec_key()
                        < key,
                forall|k: int|
                    high <= k < self.records@.len() ==> key < (
                    #[trigger] self.records@[k]).properties.address.spec_key(),
            decreases high - low,
        {
            let middle: usize = low + (high - low) / 2;
            let found: u64 = self.records[middle].properties.address.key();
            if found == key {
                assert forall|k: int| 0 <= k < middle implies (
                #[trigger] self.records@[k]).properties.address.spec_key() < key by {
                    assert(self.records@[k].properties.address.spec_key()
                        < self.records@[middle as int].properties.address.spec_key());
                }
                return (middle, true);
            } else if found < key {
                assert forall|k: int| 0 <= k < middle + 1 implies (
                #[trigger] self.records@[k]).properties.address.spec_key() < key by {
                    if k < middle {
                        assert(self.records@[k].properties.address.spec_key()
                            < self.records@[middle as int].properties.address.spec_key());
                    }
                }
                low = middle + 1;
            } else {
                assert forall|k: int| middle <= k < self.records@.len() implies key < (
                #[trigger] self.records@[k]).properties.address.spec_key() by {
                    if middle < k {
                        assert(self.records@[middle as int].properties.address.spec_key()
                            < self.records@[k].properties.address.spec_key());
                    }
                }
                high = middle;
            }
        }
        (low, false)
    }

    /// Where the record of `address` stands, if there is one.
    fn find(&self, address: BDAddr) -> (r: Option<usize>)
        requires
            self.wf(),
        ensures
            match r {
                Some(i) => i < self.records@.len() && self.records@[i as int].properties.address
                    == address && self@.contains_key(address) && self@[address]
                    == self.records@[i as int]@,
                None => !self@.contains_key(address),
            },
    {
        let (i, found) = self.locate(address.key());
        if found {
            proof {
                lemma_key_determines_address(self.records@[i as int].properties.address, address);
                lemma_place(self.records@, i as int);
            }
            Some(i)
        } else {
            proof {
                if has_address(self.records@, address) {
                    let k = place(self.records@, address);
                    assert(self.records@[k].properties.address.spec_key() == address.spec_key());
                }
            }
            None
        }
    }

    /// Whether `address` has a record.
    pub fn contains(&self, address: BDAddr) -> (r: bool)
        requires
            self.wf(),
        ensures
            r == self@.contains_key(address),
    {
        self.find(address).is_some()
    }

    /// A copy of the record of `address`, if there is one.
    pub fn get(&self, address: BDAddr) -> (r: Option<DeviceRecord>)
        requires
            self.wf(),
        ensures
            match r {
                Some(record) => lookup(self@, address) == Some(record@),
                None => lookup(self@, address) is None,
            },
    {
        match self.find(address) {
            Some(i) => Some(self.records[i].clone()),
            None => None,
        }
    }

    /// The connection flag recorded for `address`, if the address is known.
    pub fn is_connected(&self, address: BDAddr) -> (r: Option<bool>)
        requires
            self.wf(),
        ensures
            r == connected_spec(self@, address),
    {
        match self.find(address) {
            Some(i) => Some(self.records[i].connected),
            None => None,
        }
    }

    /// How many reports were merged for `address`, if the address is known.
    pub fn discovery_count(&self, address: BDAddr) -> (r: Option<u32>)
        requires
            self.wf(),
        ensures
            match r {
                Some(n) => self@.contains_key(address) && n
                    == self@[address].properties.discovery_count,
                None => !self@.contains_key(address),
            },
    {
        match self.find(address) {
            Some(i) => Some(self.records[i].properties.discovery_count),
            None => None,
        }
    }
}


impl DeviceRegistry {
    /// Merges a report for `address` into its record, which is made first
    /// where the address is new. Returns what the merge changed, and whether
    /// the record was made by this call.
    pub fn upsert(&mut self, address: BDAddr, report: &AdvertisementReport) -> (r: (
        MergeChanges,
        bool,
    ))
        requires
            old(self).wf(),
            old(self)@.contains_key(address) ==> old(self)@[address].properties.discovery_count
                < u32::MAX,
        ensures
            final(self).wf(),
            final(self)@ == upsert_spec(old(self)@, address, report@),
            r.0@ == changes_spec(record_properties(lookup(old(self)@, address)), address, report@),
            r.1 == !old(self)@.contains_key(address),
    {
        let ghost before = self.records@;
        let (i, found) = self.locate(address.key());
        if found {
            proof {
                lemma_key_determines_address(before[i as int].properties.address, address);
                lemma_place(before, i as int);
            }
            let changes = merge_into(&mut self.records[i].properties, report);
            proof {
                lemma_replaced(before, self.records@, i as int);
            }
            (changes, false)
        } else {
            let (properties, changes) = merge_report(None, address, report);
            let record = DeviceRecord { properties, characteristics: Vec::new(), connected: false };
            assert(record@.characteristics =~= Seq::empty());
            self.records.insert(i, record);
            proof {
                lemma_inserted(before, self.records@, i as int);
            }
            (changes, true)
        }
    }

    /// Makes sure that `address` has a record, for a connection to an
    /// address that never advertised: an unknown address gets a minimal
    /// record, a known one keeps its record. Says whether a record was made.
    pub fn ensure_record(&mut self, address: BDAddr, address_type: AddressType) -> (created: bool)
        requires
            old(self).wf(),
        ensures
            final(self).wf(),
            final(self)@ == ensure_record_spec(old(self)@, address, address_type),
            created == !old(self)@.contains_key(address),
    {
        let ghost before = self.records@;
        let (i, found) = self.locate(address.key());
        if found {
            proof {
                lemma_key_determines_address(before[i as int].properties.address, address);
                lemma_place(before, i as int);
            }
            false
        } else {
            let record = DeviceRecord {
                properties: new_properties(address, address_type),
                characteristics: Vec::new(),
                connected: false,
            };
            assert(record@.characteristics =~= Seq::empty());
            self.records.insert(i, record);
            proof {
                lemma_inserted(before, self.records@, i as int);
            }
            true
        }
    }

    /// Sets the connection flag of `address` and returns the flag that was
    /// recorded before. For an unknown address nothing changes and nothing
    /// is returned.
    pub fn mark_connected(&mut self, address: BDAddr, connected: bool) -> (previous: Option<bool>)
        requires
            old(self).wf(),
        ensures
            final(self).wf(),
            final(self)@ == mark_connected_spec(old(self)@, address, connected),
            previous == connected_spec(old(self)@, address),
    {
        let ghost before = self.records@;
        match self.find(address) {
            Some(i) => {
                let previous: bool = self.records[i].connected;
                self.records[i].connected = connected;
                proof {
                    lemma_replaced(before, self.records@, i as int);
                }
                Some(previous)
            },
            None => None,
        }
    }

    /// Replaces the characteristics of `address` by the set of those that a
    /// discovery found: in rising order, each one once. Fails for an unknown
    /// address, and then changes nothing.
    pub fn set_characteristics(&mut self, address: BDAddr, found: &Vec<Characteristic>) -> (r:
        Result<(), Error>)
        requires
            old(self).wf(),
        ensures
            final(self).wf(),
            r is Ok <==> old(self)@.contains_key(address),
            r is Err ==> r == Err::<(), Error>(Error::NotFound) && final(self)@ == old(self)@,
            r is Ok ==> {
                &&& final(self)@.contains_key(address)
                &&& is_characteristic_set(final(self)@[address].characteristics)
                &&& final(self)@[address].characteristics.to_set() == found@.to_set()
                &&& final(self)@ == old(self)@.insert(
                    address,
                    RecordView {
                        characteristics: final(self)@[address].characteristics,
                        ..old(self)@[address]
                    },
                )
            },
    {
        let ghost before = self.records@;
        match self.find(address) {
            Some(i) => {
                self.records[i].characteristics = characteristic_set(found);
                proof {
                    lemma_replaced(before, self.records@, i as int);
                }
                Ok(())
            },
            None => Err(Error::NotFound),
        }
    }

    /// Copies of all records, by rising address.
    pub fn list(&self) -> (r: Vec<DeviceRecord>)
        requires
            self.wf(),
        ensures
            forall|i: int, j: int|
                #![trigger r@[i], r@[j]]
                0 <= i < j < r@.len() ==> r@[i].properties.address.spec_key()
                    < r@[j].properties.address.spec_key(),
            forall|i: int|
                0 <= i < r@.len() ==> lookup(self@, (#[trigger] r@[i]).properties.address) == Some(
                    r@[i]@,
                ),
            forall|a: BDAddr|
                self@.contains_key(a) ==> exists|i: int|
                    0 <= i < r@.len() && (#[trigger] r@[i]).properties.address == a,
    {
        let mut out: Vec<DeviceRecord> = Vec::new();
        let mut i: usize = 0;
        while i < self.records.len()
            invariant
                i <= self.records@.len(),
                self.wf(),
                out@.len() == i,
                forall|k: int| 0 <= k < i ==> (#[trigger] out@[k])@ == self.records@[k]@,
            decreases self.records.len() - i,
        {
            out.push(self.records[i].clone());
            i += 1;
        }
        proof {
            assert forall|a: int, b: int|
                #![trigger out@[a], out@[b]]
                0 <= a < b < out@.len() implies out@[a].properties.address.spec_key()
                < out@[b].properties.address.spec_key() by {
                assert(out@[a]@ == self.records@[a]@);
                assert(out@[b]@ == self.records@[b]@);
                assert(self.records@[a].properties.address.spec_key()
                    < self.records@[b].properties.address.spec_key());
            }
            assert forall|k: int| 0 <= k < out@.len() implies lookup(
                self@,
                (#[trigger] out@[k]).properties.address,
            ) == Some(out@[k]@) by {
                assert(out@[k]@ == self.records@[k]@);
                lemma_place(self.records@, k);
            }
            assert forall|a: BDAddr| self@.contains_key(a) implies exists|k: int|
                0 <= k < out@.len() && (#[trigger] out@[k]).properties.address == a by {
                let k = place(self.records@, a);
                assert(out@[k]@ == self.records@[k]@);
                assert(out@[k].properties.address == a);
            }
        }
        out
    }
}

} // verus!
