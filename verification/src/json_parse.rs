//! The decoder for the structured encoding, and the round-trip law: decoding
//! an exported document yields exactly the records that were exported. The
//! decoder is deterministic — every numeric or string part of the document
//! grammar is delimited, so an exported document has only one reading.
use vstd::prelude::*;

use crate::device::RecordModel;
use crate::json_out::hex_digit;
use crate::json_out::hex_val;
use crate::json_out::is_hex;
use crate::json_out::json_document;
use crate::json_out::json_escape;
use crate::json_out::json_escape_char;
use crate::json_out::json_record;
use crate::json_out::json_records;
use crate::json_out::lit_bt;
use crate::json_out::lit_end;
use crate::json_out::lit_obj_close;
use crate::json_out::lit_obj_open;
use crate::json_out::lit_open;
use crate::json_out::lit_sep;
use crate::json_out::lit_wd;
use crate::json_out::lit_wl;

verus! {

/// Whether `p` is a prefix of `s`.
pub open spec fn starts_with(s: Seq<char>, p: Seq<char>) -> bool {
    p.len() <= s.len() && s.subrange(0, p.len() as int) == p
}

/// Consumes the literal `l` from the front of `s`.
pub open spec fn parse_lit(s: Seq<char>, l: Seq<char>) -> Option<Seq<char>> {
    if starts_with(s, l) {
        Some(s.subrange(l.len() as int, s.len() as int))
    } else {
        None
    }
}

/// Reads escaped string content up to, but not across, the next unescaped
/// quote; yields the unescaped content and the rest, which still starts with
/// that quote.
pub open spec fn parse_jstring(s: Seq<char>) -> Option<(Seq<char>, Seq<char>)>
    decreases s.len(),
{
    if s.len() == 0 {
        None
    } else if s[0] == '"' {
        Some((Seq::empty(), s))
    } else if s[0] == '\\' {
        if s.len() >= 2 && (s[1] == '"' || s[1] == '\\') {
            match parse_jstring(s.subrange(2, s.len() as int)) {
                Some(p) => Some((seq![s[1]] + p.0, p.1)),
                None => None,
            }
        } else if s.len() >= 6 && s[1] == 'u' && s[2] == '0' && s[3] == '0' && is_hex(s[4])
            && is_hex(s[5]) && hex_val(s[4]) * 16 + hex_val(s[5]) < 32 {
            match parse_jstring(s.subrange(6, s.len() as int)) {
                Some(p) => Some(
                    (seq![((hex_val(s[4]) * 16 + hex_val(s[5])) as u8) as char] + p.0, p.1),
                ),
                None => None,
            }
        } else {
            None
        }
    } else if (s[0] as int) >= 32 {
        match parse_jstring(s.subrange(1, s.len() as int)) {
            Some(p) => Some((seq![s[0]] + p.0, p.1)),
            None => None,
        }
    } else {
        None
    }
}

/// Reads one encoded record and yields it with the rest of the input.
pub open spec fn parse_record(s: Seq<char>) -> Option<(RecordModel, Seq<char>)> {
    match parse_lit(s, lit_obj_open()) {
        None => None,
        Some(s1) => match parse_jstring(s1) {
            None => None,
            Some((sn, s2)) => match parse_lit(s2, lit_bt()) {
                None => None,
                Some(s3) => match parse_jstring(s3) {
                    None => None,
                    Some((bt, s4)) => match parse_lit(s4, lit_wd()) {
                        None => None,
                        Some(s5) => match parse_jstring(s5) {
                            None => None,
                            Some((wd, s6)) => match parse_lit(s6, lit_wl()) {
                                None => None,
                                Some(s7) => match parse_jstring(s7) {
                                    None => None,
                                    Some((wl, s8)) => match parse_lit(s8, lit_obj_close()) {
                                        None => None,
                                        Some(rest) => Some(
                                            (
                                                RecordModel {
                                                    sn: sn,
                                                    bluetooth_mac: bt,
                                                    wired_mac: wd,
                                                    wireless_mac: wl,
                                                },
                                                rest,
                                            ),
                                        ),
                                    },
                                },
                            },
                        },
                    },
                },
            },
        },
    }
}

/// Reads the separated records up to and including the closing text. Every
/// record consumes at least one character, so the reading must shorten the
/// input; a reading that would not is rejected.
pub open spec fn parse_records(s: Seq<char>) -> Option<Seq<RecordModel>>
    decreases s.len(),
{
    match parse_record(s) {
        None => None,
        Some((r, rest)) => {
            if rest == lit_end() {
                Some(seq![r])
            } else if rest.len() >= 2 && rest.len() < s.len() && starts_with(rest, lit_sep()) {
                match parse_records(rest.subrange(2, rest.len() as int)) {
                    Some(t) => Some(seq![r] + t),
                    None => None,
                }
            } else {
                None
            }
        },
    }
}

/// Reads a whole document.
pub open spec fn parse_document(s: Seq<char>) -> Option<Seq<RecordModel>> {
    if s == "[]"@ {
        Some(Seq::empty())
    } else {
        match parse_lit(s, lit_open()) {
            None => None,
            Some(r) => parse_records(r),
        }
    }
}

/// Text whose characters all carry a unicode scalar value, as every
/// character of a real string does.
pub open spec fn wf_text(s: Seq<char>) -> bool {
    forall|i: int| 0 <= i < s.len() ==> 0 <= #[trigger] s[i] as int
}

/// A record whose four fields are all such text.
pub open spec fn wf_record(r: RecordModel) -> bool {
    wf_text(r.sn) && wf_text(r.bluetooth_mac) && wf_text(r.wired_mac) && wf_text(r.wireless_mac)
}

/// A literal prefix is consumed exactly.
pub proof fn lemma_parse_lit_prefix(l: Seq<char>, rest: Seq<char>)
    ensures
        parse_lit(l + rest, l) == Some(rest),
{
    assert((l + rest).subrange(0, l.len() as int) =~= l);
    assert((l + rest).subrange(l.len() as int, (l + rest).len() as int) =~= rest);
}

/// A hexadecimal digit reads back as its value.
proof fn lemma_hex_digit_val(k: int)
    requires
        0 <= k < 16,
    ensures
        is_hex(hex_digit(k)),
        hex_val(hex_digit(k)) == k,
        hex_digit(k) != '"',
        hex_digit(k) != '\\',
{
}

/// Escaped string content reads back as the unescaped text, leaving whatever
/// follows the content — which must start with the closing quote — alone.
pub proof fn lemma_parse_jstring_escape(x: Seq<char>, rest: Seq<char>)
    requires
        wf_text(x),
        rest.len() > 0,
        rest[0] == '"',
    ensures
        parse_jstring(json_escape(x) + rest) == Some((x, rest)),
    decreases x.len(),
{
    let s = json_escape(x) + rest;
    if x.len() == 0 {
        assert(json_escape(x) =~= Seq::<char>::empty());
        assert(s =~= rest);
    } else {
        let c = x[0];
        let x1 = x.subrange(1, x.len() as int);
        let tail = json_escape(x1) + rest;
        assert(json_escape(x) == json_escape_char(c) + json_escape(x1));
        assert(wf_text(x1)) by {
            assert(forall|i: int| 0 <= i < x1.len() ==> x1[i] == x[i + 1]);
        }
        lemma_parse_jstring_escape(x1, rest);
        if c == '"' || c == '\\' {
            assert(s =~= seq!['\\', c] + tail);
            assert(s[0] == '\\' && s[1] == c);
            assert(s.subrange(2, s.len() as int) =~= tail);
            assert(seq![s[1]] + x1 =~= x);
        } else if (c as int) < 32 {
            assert(0 <= c as int);
            let hi = hex_digit(c as int / 16);
            let lo = hex_digit(c as int % 16);
            assert(s =~= seq!['\\', 'u', '0', '0', hi, lo] + tail);
            assert(s[0] == '\\' && s[1] == 'u' && s[2] == '0' && s[3] == '0' && s[4] == hi && s[5]
                == lo);
            lemma_hex_digit_val(c as int / 16);
            lemma_hex_digit_val(c as int % 16);
            assert(hex_val(s[4]) * 16 + hex_val(s[5]) == c as int);
            assert(((hex_val(s[4]) * 16 + hex_val(s[5])) as u8) as char == c);
            assert(s.subrange(6, s.len() as int) =~= tail);
            assert(seq![((hex_val(s[4]) * 16 + hex_val(s[5])) as u8) as char] + x1 =~= x);
        } else {
            assert(s =~= seq![c] + tail);
            assert(s[0] == c);
            assert(s.subrange(1, s.len() as int) =~= tail);
            assert(seq![s[0]] + x1 =~= x);
        }
    }
}

/// One exported record reads back as itself, leaving the rest alone.
pub proof fn lemma_parse_record_roundtrip(r: RecordModel, rest: Seq<char>)
    requires
        wf_record(r),
    ensures
        parse_record(json_record(r) + rest) == Some((r, rest)),
{
    reveal_strlit("\",\n    \"bluetooth_mac\": \"");
    reveal_strlit("\",\n    \"wired_mac\": \"");
    reveal_strlit("\",\n    \"wireless_mac\": \"");
    reveal_strlit("\"\n  }");
    let r5 = lit_obj_close() + rest;
    let r4 = json_escape(r.wireless_mac) + r5;
    let l4 = lit_wl() + r4;
    let r3 = json_escape(r.wired_mac) + l4;
    let l3 = lit_wd() + r3;
    let r2 = json_escape(r.bluetooth_mac) + l3;
    let l2 = lit_bt() + r2;
    let r1 = json_escape(r.sn) + l2;
    let s = json_record(r) + rest;
    assert(s =~= lit_obj_open() + r1);
    lemma_parse_lit_prefix(lit_obj_open(), r1);
    assert(parse_lit(s, lit_obj_open()) == Some(r1));
    assert(l2[0] == '"');
    lemma_parse_jstring_escape(r.sn, l2);
    lemma_parse_lit_prefix(lit_bt(), r2);
    assert(l3[0] == '"');
    lemma_parse_jstring_escape(r.bluetooth_mac, l3);
    lemma_parse_lit_prefix(lit_wd(), r3);
    assert(l4[0] == '"');
    lemma_parse_jstring_escape(r.wired_mac, l4);
    lemma_parse_lit_prefix(lit_wl(), r4);
    assert(r5[0] == '"');
    lemma_parse_jstring_escape(r.wireless_mac, r5);
    lemma_parse_lit_prefix(lit_obj_close(), rest);
    assert(RecordModel {
        sn: r.sn,
        bluetooth_mac: r.bluetooth_mac,
        wired_mac: r.wired_mac,
        wireless_mac: r.wireless_mac,
    } =~= r);
}

/// An exported record is never empty text.
proof fn lemma_json_record_len(r: RecordModel)
    ensures
        json_record(r).len() >= lit_obj_open().len(),
        lit_obj_open().len() == 15,
{
    reveal_strlit("  {\n    \"sn\": \"");
}

/// One or more exported records, followed by the closing text, read back as
/// themselves.
pub proof fn lemma_parse_records_roundtrip(s: Seq<RecordModel>)
    requires
        s.len() >= 1,
        forall|i: int| 0 <= i < s.len() ==> wf_record(#[trigger] s[i]),
    ensures
        parse_records(json_records(s) + lit_end()) == Some(s),
    decreases s.len(),
{
    reveal_strlit(",\n");
    reveal_strlit("\n]");
    let input = json_records(s) + lit_end();
    if s.len() == 1 {
        lemma_parse_record_roundtrip(s[0], lit_end());
        assert(json_records(s) == json_record(s[0]));
        assert(seq![s[0]] =~= s);
    } else {
        let t = s.subrange(1, s.len() as int);
        assert(forall|i: int| 0 <= i < t.len() ==> wf_record(#[trigger] t[i])) by {
            assert(forall|i: int| 0 <= i < t.len() ==> t[i] == s[i + 1]);
        }
        let rest0 = lit_sep() + (json_records(t) + lit_end());
        assert(input =~= json_record(s[0]) + rest0);
        lemma_parse_record_roundtrip(s[0], rest0);
        lemma_json_record_len(s[0]);
        lemma_json_record_len(t[0]);
        assert(json_records(t).len() >= 15) by {
            if t.len() == 1 {
            } else {
                assert(json_records(t) == json_record(t[0]) + lit_sep() + json_records(
                    t.subrange(1, t.len() as int),
                ));
            }
        }
        assert(rest0.len() >= 2 + 15 + 2);
        assert(rest0 != lit_end()) by {
            assert(lit_end().len() == 2);
        }
        assert(starts_with(rest0, lit_sep())) by {
            assert(rest0.subrange(0, 2) =~= lit_sep());
        }
        assert(rest0.len() < input.len());
        assert(rest0.subrange(2, rest0.len() as int) =~= json_records(t) + lit_end());
        lemma_parse_records_roundtrip(t);
        assert(seq![s[0]] + t =~= s);
    }
}

/// Decoding an exported document yields exactly the exported records: the
/// identifiers and MAC-field triples that were in the record set, no more and
/// no fewer.
pub proof fn lemma_json_round_trip(s: Seq<RecordModel>)
    requires
        forall|i: int| 0 <= i < s.len() ==> wf_record(#[trigger] s[i]),
    ensures
        parse_document(json_document(s)) == Some(s),
{
    reveal_strlit("[]");
    reveal_strlit("[\n");
    reveal_strlit("\n]");
    if s.len() == 0 {
        assert(json_document(s) == "[]"@);
        assert(Seq::<RecordModel>::empty() =~= s);
    } else {
        let body = json_records(s) + lit_end();
        let doc = json_document(s);
        assert(doc =~= lit_open() + body);
        lemma_json_record_len(s[0]);
        assert(json_records(s).len() >= 15) by {
            if s.len() > 1 {
                assert(json_records(s) == json_record(s[0]) + lit_sep() + json_records(
                    s.subrange(1, s.len() as int),
                ));
            }
        }
        assert(doc.len() >= 2 + 15 + 2);
        assert(doc != "[]"@) by {
            assert("[]"@.len() == 2);
        }
        lemma_parse_lit_prefix(lit_open(), body);
        assert(parse_lit(doc, lit_open()) == Some(body));
        lemma_parse_records_roundtrip(s);
    }
}

} // verus!
