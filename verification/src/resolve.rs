//! The schema resolver: one `(key, raw value)` pair becomes at most one
//! record. A raw value is tolerated under two encodings: the self-identifying
//! shape, which carries its own identifier member besides the three MAC
//! members, and the bare shape, which carries the three MAC members alone. A
//! shape matches on structural member presence only; the store key always
//! supplies the record identifier, and a value that matches neither shape
//! yields no record at all.
use vstd::prelude::*;

use crate::device::DeviceInfo;
use crate::device::DeviceValue;
use crate::device::MacsModel;
use crate::device::RecordModel;
use crate::device::opt_macs_model;
use crate::device::opt_record_model;

verus! {

/// What the self-identifying decode of a raw value yields: its embedded
/// identifier and MAC members, or nothing when the value does not match that
/// shape. A pure function of the text alone.
pub uninterp spec fn self_identifying_form(s: Seq<char>) -> Option<RecordModel>;

/// What the bare decode of a raw value yields: its MAC members, or nothing
/// when the value does not match that shape. A pure function of the text
/// alone.
pub uninterp spec fn bare_form(s: Seq<char>) -> Option<MacsModel>;

/// Relies on serde_json: `from_str` parses the text into a `Value`, `get`
/// looks a member up, and `as_str` yields it only when it is a string. The
/// value matches the self-identifying shape exactly when it is a document
/// whose `sn`, `bluetooth_mac`, `wired_mac` and `wireless_mac` members are
/// all present as strings; extra members are ignored. A value that matches
/// this shape therefore also matches the bare shape, with the same MAC
/// members, which the second clause records.
#[verifier::external_body]
fn decode_self_identifying(raw: &str) -> (r: Option<DeviceInfo>)
    ensures
        opt_record_model(r) == self_identifying_form(raw@),
        r matches Some(d) ==> bare_form(raw@) == Some(d@.macs()),
{
    let v: serde_json::Value = match serde_json::from_str(raw) {
        Ok(v) => v,
        Err(_) => return None,
    };
    let sn = v.get("sn")?.as_str()?.to_string();
    let bluetooth_mac = v.get("bluetooth_mac")?.as_str()?.to_string();
    let wired_mac = v.get("wired_mac")?.as_str()?.to_string();
    let wireless_mac = v.get("wireless_mac")?.as_str()?.to_string();
    Some(DeviceInfo { sn, bluetooth_mac, wired_mac, wireless_mac })
}

/// Relies on serde_json: `from_str`, `Value::get` and `Value::as_str`, as
/// above. The value matches the bare shape exactly when it is a document
/// whose `bluetooth_mac`, `wired_mac` and `wireless_mac` members are all
/// present as strings; extra members, an identifier among them, are ignored.
#[verifier::external_body]
fn decode_bare(raw: &str) -> (r: Option<DeviceValue>)
    ensures
        opt_macs_model(r) == bare_form(raw@),
{
    let v: serde_json::Value = match serde_json::from_str(raw) {
        Ok(v) => v,
        Err(_) => return None,
    };
    let bluetooth_mac = v.get("bluetooth_mac")?.as_str()?.to_string();
    let wired_mac = v.get("wired_mac")?.as_str()?.to_string();
    let wireless_mac = v.get("wireless_mac")?.as_str()?.to_string();
    Some(DeviceValue { bluetooth_mac, wired_mac, wireless_mac })
}

/// The record a `(key, raw value)` pair resolves to: the MAC members of
/// whichever shape the value matches, under the store key as identifier; or
/// nothing when the value matches neither shape. The order in which the two
/// shapes are tried cannot change this outcome, because a self-identifying
/// match is also a bare match with the same MAC members.
pub open spec fn resolve_spec(k: Seq<char>, v: Seq<char>) -> Option<RecordModel> {
    match bare_form(v) {
        Some(m) => Some(
            RecordModel {
                sn: k,
                bluetooth_mac: m.bluetooth_mac,
                wired_mac: m.wired_mac,
                wireless_mac: m.wireless_mac,
            },
        ),
        None => match self_identifying_form(v) {
            Some(r) => Some(
                RecordModel {
                    sn: k,
                    bluetooth_mac: r.bluetooth_mac,
                    wired_mac: r.wired_mac,
                    wireless_mac: r.wireless_mac,
                },
            ),
            None => None,
        },
    }
}

/// Decodes one pair, trying the preferred shape first and falling back to the
/// other; the embedded identifier of a self-identifying value is discarded in
/// favour of the store key. The contract does not mention the preference
/// flag: the attempt order is a tunable policy that never changes the
/// outcome.
pub fn resolve_record(key: &str, raw: &str, prefer_self_identifying: bool) -> (r: Option<
    DeviceInfo,
>)
    ensures
        opt_record_model(r) == resolve_spec(key@, raw@),
{
    if prefer_self_identifying {
        match decode_self_identifying(raw) {
            Some(d) => Some(
                DeviceInfo {
                    sn: key.to_owned(),
                    bluetooth_mac: d.bluetooth_mac,
                    wired_mac: d.wired_mac,
                    wireless_mac: d.wireless_mac,
                },
            ),
            None => match decode_bare(raw) {
                Some(m) => Some(
                    DeviceInfo {
                        sn: key.to_owned(),
                        bluetooth_mac: m.bluetooth_mac,
                        wired_mac: m.wired_mac,
                        wireless_mac: m.wireless_mac,
                    },
                ),
                None => None,
            },
        }
    } else {
        match decode_bare(raw) {
            Some(m) => Some(
                DeviceInfo {
                    sn: key.to_owned(),
                    bluetooth_mac: m.bluetooth_mac,
                    wired_mac: m.wired_mac,
                    wireless_mac: m.wireless_mac,
                },
            ),
            None => match decode_self_identifying(raw) {
                Some(d) => Some(
                    DeviceInfo {
                        sn: key.to_owned(),
                        bluetooth_mac: d.bluetooth_mac,
                        wired_mac: d.wired_mac,
                        wireless_mac: d.wireless_mac,
                    },
                ),
                None => None,
            },
        }
    }
}

/// A value decodes under some schema exactly when one of the two forms
/// matches it; the resolved record then carries the store key as identifier.
pub proof fn lemma_resolve_outcome(k: Seq<char>, v: Seq<char>)
    ensures
        resolve_spec(k, v) is Some <==> (self_identifying_form(v) is Some || bare_form(v)
            is Some),
        resolve_spec(k, v) matches Some(r) ==> r.sn == k,
{
}

} // verus!
