//! What holds of merging, whatever the reports are.

use crate::address::BDAddr;
use crate::merge::{
    apply_deltas, fresh_properties, last_delta, merge_report_spec, merge_spec, merged_name,
};
use crate::properties::{PropertiesView, ReportView};
use vstd::prelude::*;

verus! {

/// A key gets a payload from a list exactly if some entry of the list has
/// that key.
pub proof fn lemma_last_delta_some<K>(deltas: Seq<(K, Seq<u8>)>, key: K)
    ensures
        last_delta(deltas, key) is Some <==> exists|i: int|
            0 <= i < deltas.len() && (#[trigger] deltas[i]).0 == key,
    decreases deltas.len(),
{
    if deltas.len() > 0 {
        let init = deltas.drop_last();
        lemma_last_delta_some(init, key);
        if deltas.last().0 == key {
            assert(deltas[deltas.len() - 1].0 == key);
        } else if last_delta(init, key) is Some {
            let i = choose|i: int| 0 <= i < init.len() && (#[trigger] init[i]).0 == key;
            assert(deltas[i].0 == key);
        } else {
            assert forall|i: int| 0 <= i < deltas.len() implies (#[trigger] deltas[i]).0
                != key by {
                if i < init.len() {
                    assert(init[i] == deltas[i]);
                }
            }
        }
    }
}

/// The payload that a list gives a key is that of the last entry with the
/// key: no later entry has it.
pub proof fn lemma_last_delta_is_last<K>(deltas: Seq<(K, Seq<u8>)>, key: K)
    requires
        last_delta(deltas, key) is Some,
    ensures
        exists|i: int|
            0 <= i < deltas.len() && (#[trigger] deltas[i]) == (key, last_delta(deltas, key)->0)
                && forall|j: int| i < j < deltas.len() ==> (#[trigger] deltas[j]).0 != key,
    decreases deltas.len(),
{
    let init = deltas.drop_last();
    if deltas.last().0 == key {
        let i = deltas.len() - 1;
        assert(deltas[i] == (key, last_delta(deltas, key)->0));
    } else {
        lemma_last_delta_is_last(init, key);
        let i = choose|i: int|
            0 <= i < init.len() && (#[trigger] init[i]) == (key, last_delta(init, key)->0)
                && forall|j: int| i < j < init.len() ==> (#[trigger] init[j]).0 != key;
        assert(deltas[i] == init[i]);
        assert forall|j: int| i < j < deltas.len() implies (#[trigger] deltas[j]).0 != key by {
            if j < init.len() {
                assert(init[j] == deltas[j]);
            }
        }
    }
}

/// After a list was written into a stored map, a key has a payload exactly
/// if it had one or the list names it, and the payload is the last one that
/// the list gives it, else the stored one.
pub proof fn lemma_apply_deltas_lookup<K>(
    stored: Map<K, Seq<u8>>,
    deltas: Seq<(K, Seq<u8>)>,
    key: K,
)
    ensures
        apply_deltas(stored, deltas).contains_key(key) <==> stored.contains_key(key) || last_delta(
            deltas,
            key,
        ) is Some,
        last_delta(deltas, key) is Some ==> apply_deltas(stored, deltas)[key] == last_delta(
            deltas,
            key,
        )->0,
        last_delta(deltas, key) is None ==> apply_deltas(stored, deltas)[key] == stored[key],
    decreases deltas.len(),
{
    if deltas.len() > 0 {
        lemma_apply_deltas_lookup(stored, deltas.drop_last(), key);
    }
}

/// Writing the same list into a map a second time changes nothing.
pub proof fn lemma_apply_deltas_idempotent<K>(stored: Map<K, Seq<u8>>, deltas: Seq<(K, Seq<u8>)>)
    ensures
        apply_deltas(apply_deltas(stored, deltas), deltas) == apply_deltas(stored, deltas),
{
    let once = apply_deltas(stored, deltas);
    let twice = apply_deltas(once, deltas);
    assert forall|key: K| #[trigger] twice.dom().contains(key) == once.dom().contains(key) by {
        lemma_apply_deltas_lookup(stored, deltas, key);
        lemma_apply_deltas_lookup(once, deltas, key);
    }
    assert forall|key: K| twice.dom().contains(key) implies #[trigger] twice[key] == once[key] by {
        lemma_apply_deltas_lookup(stored, deltas, key);
        lemma_apply_deltas_lookup(once, deltas, key);
    }
    assert(twice =~= once);
}

/// Merging the same report twice gives the same properties as merging it
/// once, but for the report counter, which counts both.
pub proof fn lemma_merge_idempotent(stored: PropertiesView, report: ReportView)
    ensures
        merge_spec(merge_spec(stored, report), report) == (PropertiesView {
            discovery_count: stored.discovery_count + 2,
            ..merge_spec(stored, report)
        }),
{
    lemma_apply_deltas_idempotent(stored.manufacturer_data, report.manufacturer_data);
    lemma_apply_deltas_idempotent(stored.service_data, report.service_data);
}

/// The same holds where the first of the two merges creates the properties.
pub proof fn lemma_merge_report_idempotent(
    existing: Option<PropertiesView>,
    address: BDAddr,
    report: ReportView,
)
    ensures
        ({
            let once = merge_report_spec(existing, address, report);
            merge_report_spec(Some(once), address, report) == (PropertiesView {
                discovery_count: once.discovery_count + 1,
                ..once
            })
        }),
{
    let base = match existing {
        Some(stored) => stored,
        None => fresh_properties(address, report.address_type),
    };
    lemma_merge_idempotent(base, report);
}

/// A stored name that is not empty survives a report without a name.
pub proof fn lemma_name_survives_absent_name(stored: PropertiesView, report: ReportView)
    requires
        stored.local_name is Some,
        stored.local_name->0.len() > 0,
        report.local_name is None,
    ensures
        merge_spec(stored, report).local_name == stored.local_name,
{
}

/// A merge never replaces the stored name by an absent or an empty one.
pub proof fn lemma_name_never_cleared(stored: PropertiesView, report: ReportView)
    ensures
        merged_name(stored.local_name, report.local_name) == stored.local_name || (
        merged_name(stored.local_name, report.local_name) matches Some(name) && name.len() > 0),
{
}

/// Properties after a row of reports was merged into them, first report
/// first.
pub open spec fn merge_all(stored: PropertiesView, reports: Seq<ReportView>) -> PropertiesView
    decreases reports.len(),
{
    if reports.len() == 0 {
        stored
    } else {
        merge_spec(merge_all(stored, reports.drop_last()), reports.last())
    }
}

/// The manufacturer payload that the most recent report naming `id` gives it.
pub open spec fn last_reported_manufacturer_data(reports: Seq<ReportView>, id: u16) -> Option<
    Seq<u8>,
>
    decreases reports.len(),
{
    if reports.len() == 0 {
        None
    } else {
        match last_delta(reports.last().manufacturer_data, id) {
            Some(payload) => Some(payload),
            None => last_reported_manufacturer_data(reports.drop_last(), id),
        }
    }
}

/// The service payload that the most recent report naming `uuid` gives it.
pub open spec fn last_reported_service_data(reports: Seq<ReportView>, uuid: u128) -> Option<
    Seq<u8>,
>
    decreases reports.len(),
{
    if reports.len() == 0 {
        None
    } else {
        match last_delta(reports.last().service_data, uuid) {
            Some(payload) => Some(payload),
            None => last_reported_service_data(reports.drop_last(), uuid),
        }
    }
}

/// After any row of reports the manufacturer data holds every ID that was
/// stored or ever reported, each with the payload of its most recent report,
/// and the stored payload where no report named it.
pub proof fn lemma_manufacturer_data_accumulates(
    stored: PropertiesView,
    reports: Seq<ReportView>,
    id: u16,
)
    ensures
        ({
            let merged = merge_all(stored, reports).manufacturer_data;
            let reported = last_reported_manufacturer_data(reports, id);
            &&& merged.contains_key(id) <==> stored.manufacturer_data.contains_key(id)
                || reported is Some
            &&& reported is Some ==> merged[id] == reported->0
            &&& reported is None ==> merged[id] == stored.manufacturer_data[id]
        }),
    decreases reports.len(),
{
    if reports.len() > 0 {
        let before = merge_all(stored, reports.drop_last());
        lemma_manufacturer_data_accumulates(stored, reports.drop_last(), id);
        lemma_apply_deltas_lookup(before.manufacturer_data, reports.last().manufacturer_data, id);
    }
}

/// After any row of reports the service data holds every UUID that was
/// stored or ever reported, each with the payload of its most recent report,
/// and the stored payload where no report named it.
pub proof fn lemma_service_data_accumulates(
    stored: PropertiesView,
    reports: Seq<ReportView>,
    uuid: u128,
)
    ensures
        ({
            let merged = merge_all(stored, reports).service_data;
            let reported = last_reported_service_data(reports, uuid);
            &&& merged.contains_key(uuid) <==> stored.service_data.contains_key(uuid)
                || reported is Some
            &&& reported is Some ==> merged[uuid] == reported->0
            &&& reported is None ==> merged[uuid] == stored.service_data[uuid]
        }),
    decreases reports.len(),
{
    if reports.len() > 0 {
        let before = merge_all(stored, reports.drop_last());
        lemma_service_data_accumulates(stored, reports.drop_last(), uuid);
        lemma_apply_deltas_lookup(before.service_data, reports.last().service_data, uuid);
    }
}

/// An ID was reported exactly if some report of the row has an entry for it.
pub proof fn lemma_reported_manufacturer_data_some(reports: Seq<ReportView>, id: u16)
    ensures
        last_reported_manufacturer_data(reports, id) is Some <==> exists|r: int, i: int|
            0 <= r < reports.len() && 0 <= i < reports[r].manufacturer_data.len()
                && (#[trigger] reports[r].manufacturer_data[i]).0 == id,
    decreases reports.len(),
{
    if reports.len() > 0 {
        let init = reports.drop_last();
        let last = reports.len() - 1;
        lemma_reported_manufacturer_data_some(init, id);
        lemma_last_delta_some(reports.last().manufacturer_data, id);
        if last_delta(reports.last().manufacturer_data, id) is Some {
            let i = choose|i: int|
                0 <= i < reports[last].manufacturer_data.len()
                    && (#[trigger] reports[last].manufacturer_data[i]).0 == id;
            assert(reports[last].manufacturer_data[i].0 == id);
        } else if last_reported_manufacturer_data(init, id) is Some {
            let (r, i) = choose|r: int, i: int|
                0 <= r < init.len() && 0 <= i < init[r].manufacturer_data.len()
                    && (#[trigger] init[r].manufacturer_data[i]).0 == id;
            assert(reports[r].manufacturer_data[i].0 == id);
        } else {
            assert forall|r: int, i: int|
                0 <= r < reports.len() && 0 <= i < reports[r].manufacturer_data.len() implies (
            #[trigger] reports[r].manufacturer_data[i]).0 != id by {
                if r < init.len() {
                    assert(init[r].manufacturer_data[i] == reports[r].manufacturer_data[i]);
                }
            }
        }
    }
}

/// The report counter counts the merged reports, and a scan response, once
/// seen, stays seen; address and address type never change.
pub proof fn lemma_merge_all_counts(stored: PropertiesView, reports: Seq<ReportView>)
    ensures
        merge_all(stored, reports).discovery_count == stored.discovery_count + reports.len(),
        merge_all(stored, reports).address == stored.address,
        merge_all(stored, reports).address_type == stored.address_type,
        stored.has_scan_response ==> merge_all(stored, reports).has_scan_response,
        merge_all(stored, reports).has_scan_response <==> stored.has_scan_response || exists|
            r: int,
        |
            0 <= r < reports.len() && (#[trigger] reports[r]).is_scan_response,
    decreases reports.len(),
{
    if reports.len() > 0 {
        let init = reports.drop_last();
        lemma_merge_all_counts(stored, init);
        if reports.last().is_scan_response {
            assert(reports[reports.len() - 1].is_scan_response);
        } else if merge_all(stored, init).has_scan_response && !stored.has_scan_response {
            let r = choose|r: int| 0 <= r < init.len() && (#[trigger] init[r]).is_scan_response;
            assert(reports[r].is_scan_response);
        } else {
            assert forall|r: int| 0 <= r < reports.len() && (#[trigger] reports[r]).is_scan_response
                implies stored.has_scan_response || merge_all(stored, init).has_scan_response by {
                if r < init.len() {
                    assert(init[r] == reports[r]);
                }
            }
        }
    }
}

} // verus!
