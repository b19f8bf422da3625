//! Inventory of device identity records: keys and raw values fetched from a
//! key-value store are decoded under two tolerated value encodings, normalized
//! into a record set with unique identifiers, and rendered as CSV or as
//! pretty-printed structured text, chosen by the destination file extension.
pub mod address;
pub mod csv_out;
pub mod device;
pub mod export;
pub mod json_out;
pub mod json_parse;
pub mod pipeline;
pub mod resolve;
pub mod result_set;
pub mod text;
