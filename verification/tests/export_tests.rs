//! The two encoders and the extension-driven choice between them.
use mac_inventory::csv_out::csv_export;
use mac_inventory::device::ConfigError;
use mac_inventory::device::DeviceInfo;
use mac_inventory::export::ExportFormat;
use mac_inventory::export::export_format_of;
use mac_inventory::export::render_export;
use mac_inventory::json_out::json_export;
use mac_inventory::result_set::ResultSet;

fn sample_set() -> ResultSet {
    let mut rs = ResultSet::new();
    rs.insert(DeviceInfo {
        sn: String::from("SN001"),
        bluetooth_mac: String::from("AA:BB"),
        wired_mac: String::from("CC:DD"),
        wireless_mac: String::from("EE:FF"),
    });
    rs.insert(DeviceInfo {
        sn: String::from("SN002"),
        bluetooth_mac: String::from("11"),
        wired_mac: String::from("22"),
        wireless_mac: String::from("33"),
    });
    rs
}

#[test]
fn extension_selects_the_encoder() {
    assert_eq!(export_format_of("mac.csv"), Ok(ExportFormat::Csv));
    assert_eq!(export_format_of("data.json"), Ok(ExportFormat::Json));
    assert_eq!(export_format_of("a.b.csv"), Ok(ExportFormat::Csv));
    assert_eq!(
        export_format_of("out.txt"),
        Err(ConfigError::UnsupportedFormat)
    );
    assert_eq!(
        export_format_of("noextension"),
        Err(ConfigError::UnsupportedFormat)
    );
    assert_eq!(
        export_format_of("trailingdot."),
        Err(ConfigError::UnsupportedFormat)
    );
    assert_eq!(
        export_format_of("upper.CSV"),
        Err(ConfigError::UnsupportedFormat)
    );
}

#[test]
fn unsupported_destination_renders_nothing() {
    let rs = sample_set();
    assert_eq!(
        render_export("out.txt", &rs),
        Err(ConfigError::UnsupportedFormat)
    );
}

#[test]
fn render_follows_the_extension() {
    let rs = sample_set();
    assert_eq!(render_export("mac.csv", &rs).unwrap(), csv_export(&rs));
    assert_eq!(render_export("mac.json", &rs).unwrap(), json_export(&rs));
}

#[test]
fn csv_has_the_fixed_header_and_one_row_per_record() {
    let rs = sample_set();
    let doc = csv_export(&rs);
    let mut lines = doc.lines();
    assert_eq!(
        lines.next(),
        Some("SN,wired_mac,wireless_mac,bluetooth_mac")
    );
    let mut rows: Vec<&str> = lines.collect();
    rows.sort();
    assert_eq!(rows, vec!["SN001,CC:DD,EE:FF,AA:BB", "SN002,22,33,11"]);
}

#[test]
fn csv_export_is_idempotent() {
    let rs = sample_set();
    assert_eq!(csv_export(&rs), csv_export(&rs));
}

#[test]
fn csv_quotes_fields_that_need_it() {
    let mut rs = ResultSet::new();
    rs.insert(DeviceInfo {
        sn: String::from("a,b"),
        bluetooth_mac: String::from("q\"q"),
        wired_mac: String::from("line\nbreak"),
        wireless_mac: String::from("plain"),
    });
    let doc = csv_export(&rs);
    assert_eq!(
        doc,
        "SN,wired_mac,wireless_mac,bluetooth_mac\n\"a,b\",\"line\nbreak\",plain,\"q\"\"q\"\n"
    );
}

#[test]
fn empty_set_exports_as_header_or_empty_array() {
    let rs = ResultSet::new();
    assert_eq!(csv_export(&rs), "SN,wired_mac,wireless_mac,bluetooth_mac\n");
    assert_eq!(json_export(&rs), "[]");
}

#[test]
fn json_document_round_trips_through_a_real_decoder() {
    let mut rs = ResultSet::new();
    rs.insert(DeviceInfo {
        sn: String::from("SN\"7\\"),
        bluetooth_mac: String::from("with\nnewline"),
        wired_mac: String::from("ctrl\u{1}char"),
        wireless_mac: String::from("plain"),
    });
    rs.insert(DeviceInfo {
        sn: String::from("SN8"),
        bluetooth_mac: String::from("aa"),
        wired_mac: String::from("bb"),
        wireless_mac: String::from("cc"),
    });
    let doc = json_export(&rs);
    let parsed: serde_json::Value = serde_json::from_str(&doc).unwrap();
    let arr = parsed.as_array().unwrap();
    assert_eq!(arr.len(), 2);
    let records = rs.records();
    for (obj, rec) in arr.iter().zip(records.iter()) {
        assert_eq!(obj.get("sn").unwrap().as_str().unwrap(), rec.sn);
        assert_eq!(
            obj.get("bluetooth_mac").unwrap().as_str().unwrap(),
            rec.bluetooth_mac
        );
        assert_eq!(
            obj.get("wired_mac").unwrap().as_str().unwrap(),
            rec.wired_mac
        );
        assert_eq!(
            obj.get("wireless_mac").unwrap().as_str().unwrap(),
            rec.wireless_mac
        );
    }
}

#[test]
fn json_document_is_a_pretty_printed_array() {
    let mut rs = ResultSet::new();
    rs.insert(DeviceInfo {
        sn: String::from("S"),
        bluetooth_mac: String::from("b"),
        wired_mac: String::from("w"),
        wireless_mac: String::from("l"),
    });
    assert_eq!(
        json_export(&rs),
        "[\n  {\n    \"sn\": \"S\",\n    \"bluetooth_mac\": \"b\",\n    \"wired_mac\": \"w\",\n    \"wireless_mac\": \"l\"\n  }\n]"
    );
}
