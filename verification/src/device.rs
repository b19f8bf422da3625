//! The data model: one record per device, identified by the store key, with
//! three MAC-address fields; and the two value shapes tolerated by the decoder.
use vstd::prelude::*;

verus! {

/// Mathematical model of a full device record.
#[verifier::ext_equal]
pub ghost struct RecordModel {
    pub sn: Seq<char>,
    pub bluetooth_mac: Seq<char>,
    pub wired_mac: Seq<char>,
    pub wireless_mac: Seq<char>,
}

/// Mathematical model of the three MAC fields alone (the bare value shape).
#[verifier::ext_equal]
pub ghost struct MacsModel {
    pub bluetooth_mac: Seq<char>,
    pub wired_mac: Seq<char>,
    pub wireless_mac: Seq<char>,
}

impl RecordModel {
    /// The MAC fields of a record, with the identifier dropped.
    pub open spec fn macs(self) -> MacsModel {
        MacsModel {
            bluetooth_mac: self.bluetooth_mac,
            wired_mac: self.wired_mac,
            wireless_mac: self.wireless_mac,
        }
    }
}

/// A normalized device record: the store key as identifier plus the three
/// MAC-address fields. No field is validated for format; any string is kept.
pub struct DeviceInfo {
    pub sn: String,
    pub bluetooth_mac: String,
    pub wired_mac: String,
    pub wireless_mac: String,
}

impl View for DeviceInfo {
    type V = RecordModel;

    open spec fn view(&self) -> RecordModel {
        RecordModel {
            sn: self.sn@,
            bluetooth_mac: self.bluetooth_mac@,
            wired_mac: self.wired_mac@,
            wireless_mac: self.wireless_mac@,
        }
    }
}

impl Clone for DeviceInfo {
    fn clone(&self) -> (r: Self)
        ensures
            r@ == self@,
    {
        DeviceInfo {
            sn: self.sn.clone(),
            bluetooth_mac: self.bluetooth_mac.clone(),
            wired_mac: self.wired_mac.clone(),
            wireless_mac: self.wireless_mac.clone(),
        }
    }
}

/// A value under the bare shape: the three MAC fields, no identifier.
pub struct DeviceValue {
    pub bluetooth_mac: String,
    pub wired_mac: String,
    pub wireless_mac: String,
}

impl View for DeviceValue {
    type V = MacsModel;

    open spec fn view(&self) -> MacsModel {
        MacsModel {
            bluetooth_mac: self.bluetooth_mac@,
            wired_mac: self.wired_mac@,
            wireless_mac: self.wireless_mac@,
        }
    }
}

/// The view of an optional record.
pub open spec fn opt_record_model(o: Option<DeviceInfo>) -> Option<RecordModel> {
    match o {
        Some(d) => Some(d@),
        None => None,
    }
}

/// The view of an optional bare value.
pub open spec fn opt_macs_model(o: Option<DeviceValue>) -> Option<MacsModel> {
    match o {
        Some(v) => Some(v@),
        None => None,
    }
}

/// A fatal configuration fault, detected before any store traffic is useful:
/// the connection address does not match the accepted grammar, or the
/// destination path carries an extension no encoder exists for.
#[derive(PartialEq, Eq, Structural, Clone, Copy, Debug)]
pub enum ConfigError {
    InvalidAddress,
    UnsupportedFormat,
}

/// A fatal store-side fault: here, the one internal invariant violation the
/// pipeline can detect, a key sequence and a value sequence of unequal length.
#[derive(PartialEq, Eq, Structural, Clone, Copy, Debug)]
pub enum StoreError {
    LengthMismatch,
}

} // verus!
