//! The structured encoding: a pretty-printed array with one document per
//! record, fields in a fixed order, the identifier included since this shape
//! carries one. String content is escaped minimally — quote, backslash, and
//! control characters as four-digit escapes — and the encoding comes with a
//! decoder and a proof that decoding an exported document yields exactly the
//! exported records.
use vstd::prelude::*;

use crate::device::RecordModel;
use crate::result_set::ResultSet;
use crate::text::push_char;

verus! {

/// The hexadecimal digit for a value below sixteen.
pub open spec fn hex_digit(n: int) -> char {
    if n == 0 {
        '0'
    } else if n == 1 {
        '1'
    } else if n == 2 {
        '2'
    } else if n == 3 {
        '3'
    } else if n == 4 {
        '4'
    } else if n == 5 {
        '5'
    } else if n == 6 {
        '6'
    } else if n == 7 {
        '7'
    } else if n == 8 {
        '8'
    } else if n == 9 {
        '9'
    } else if n == 10 {
        'a'
    } else if n == 11 {
        'b'
    } else if n == 12 {
        'c'
    } else if n == 13 {
        'd'
    } else if n == 14 {
        'e'
    } else {
        'f'
    }
}

/// The value of a hexadecimal digit.
pub open spec fn hex_val(c: char) -> int {
    if c == '0' {
        0
    } else if c == '1' {
        1
    } else if c == '2' {
        2
    } else if c == '3' {
        3
    } else if c == '4' {
        4
    } else if c == '5' {
        5
    } else if c == '6' {
        6
    } else if c == '7' {
        7
    } else if c == '8' {
        8
    } else if c == '9' {
        9
    } else if c == 'a' {
        10
    } else if c == 'b' {
        11
    } else if c == 'c' {
        12
    } else if c == 'd' {
        13
    } else if c == 'e' {
        14
    } else if c == 'f' {
        15
    } else {
        16
    }
}

/// Whether `c` is one of the sixteen digits the encoder emits.
pub open spec fn is_hex(c: char) -> bool {
    hex_val(c) < 16
}

/// How one character is written inside a string: quote and backslash behind a
/// backslash, a control character as a four-digit escape, anything else as
/// itself.
pub open spec fn json_escape_char(c: char) -> Seq<char> {
    if c == '"' {
        seq!['\\', '"']
    } else if c == '\\' {
        seq!['\\', '\\']
    } else if (c as int) < 32 {
        seq!['\\', 'u', '0', '0', hex_digit(c as int / 16), hex_digit(c as int % 16)]
    } else {
        seq![c]
    }
}

/// The escaped form of a whole string.
pub open spec fn json_escape(s: Seq<char>) -> Seq<char>
    decreases s.len(),
{
    if s.len() == 0 {
        Seq::empty()
    } else {
        json_escape_char(s[0]) + json_escape(s.subrange(1, s.len() as int))
    }
}

/// Escaping distributes over concatenation.
pub proof fn lemma_json_escape_concat(a: Seq<char>, b: Seq<char>)
    ensures
        json_escape(a + b) == json_escape(a) + json_escape(b),
    decreases a.len(),
{
    if a.len() == 0 {
        assert(a + b =~= b);
        assert(json_escape(a) + json_escape(b) =~= json_escape(b));
    } else {
        assert((a + b).subrange(1, (a + b).len() as int) =~= a.subrange(1, a.len() as int) + b);
        lemma_json_escape_concat(a.subrange(1, a.len() as int), b);
        assert((a + b)[0] == a[0]);
        assert(json_escape_char(a[0]) + (json_escape(a.subrange(1, a.len() as int)) + json_escape(
            b,
        )) =~= (json_escape_char(a[0]) + json_escape(a.subrange(1, a.len() as int))) + json_escape(
            b,
        ));
    }
}

/// The text that opens a record, up to the identifier's opening quote.
pub open spec fn lit_obj_open() -> Seq<char> {
    "  {\n    \"sn\": \""@
}

/// The text between the identifier and the bluetooth field.
pub open spec fn lit_bt() -> Seq<char> {
    "\",\n    \"bluetooth_mac\": \""@
}

/// The text between the bluetooth and wired fields.
pub open spec fn lit_wd() -> Seq<char> {
    "\",\n    \"wired_mac\": \""@
}

/// The text between the wired and wireless fields.
pub open spec fn lit_wl() -> Seq<char> {
    "\",\n    \"wireless_mac\": \""@
}

/// The text that closes a record.
pub open spec fn lit_obj_close() -> Seq<char> {
    "\"\n  }"@
}

/// The separator between two records.
pub open spec fn lit_sep() -> Seq<char> {
    ",\n"@
}

/// The text that opens a non-empty document.
pub open spec fn lit_open() -> Seq<char> {
    "[\n"@
}

/// The text that closes a non-empty document.
pub open spec fn lit_end() -> Seq<char> {
    "\n]"@
}

/// One encoded record.
pub open spec fn json_record(r: RecordModel) -> Seq<char> {
    lit_obj_open() + json_escape(r.sn) + lit_bt() + json_escape(r.bluetooth_mac) + lit_wd()
        + json_escape(r.wired_mac) + lit_wl() + json_escape(r.wireless_mac) + lit_obj_close()
}

/// One or more encoded records, separated.
pub open spec fn json_records(s: Seq<RecordModel>) -> Seq<char>
    decreases s.len(),
{
    if s.len() <= 1 {
        json_record(s[0])
    } else {
        json_record(s[0]) + lit_sep() + json_records(s.subrange(1, s.len() as int))
    }
}

/// The whole document: an empty array, or the records between brackets.
pub open spec fn json_document(s: Seq<RecordModel>) -> Seq<char> {
    if s.len() == 0 {
        "[]"@
    } else {
        lit_open() + json_records(s) + lit_end()
    }
}

/// Appending one record to a non-empty sequence appends one separator and one
/// encoded record.
pub proof fn lemma_json_records_snoc(s: Seq<RecordModel>, r: RecordModel)
    requires
        s.len() >= 1,
    ensures
        json_records(s.push(r)) == json_records(s) + lit_sep() + json_record(r),
    decreases s.len(),
{
    if s.len() == 1 {
        assert(s.push(r)[0] == s[0]);
        assert(s.push(r).subrange(1, 2) =~= seq![r]);
        assert(json_records(seq![r]) == json_record(seq![r][0]));
        assert(seq![r][0] == r);
    } else {
        let t = s.subrange(1, s.len() as int);
        lemma_json_records_snoc(t, r);
        assert(s.push(r).subrange(1, s.push(r).len() as int) =~= t.push(r));
        assert(s.push(r)[0] == s[0]);
        assert(json_record(s[0]) + lit_sep() + (json_records(t) + lit_sep() + json_record(r)) =~= (
        json_record(s[0]) + lit_sep() + json_records(t)) + lit_sep() + json_record(r));
    }
}

/// Appends the escaped form of `field`.
fn append_json_escaped(out: &mut String, field: &str)
    ensures
        final(out)@ == old(out)@ + json_escape(field@),
{
    let n = field.unicode_len();
    let mut i: usize = 0;
    let ghost o0 = out@;
    proof {
        assert(o0 + json_escape(field@.take(0)) =~= o0);
    }
    while i < n
        invariant
            i <= n,
            n == field@.len(),
            out@ == o0 + json_escape(field@.take(i as int)),
        decreases n - i,
    {
        let c = field.get_char(i);
        proof {
            assert(field@.take(i + 1) =~= field@.take(i as int) + seq![field@[i as int]]);
            lemma_json_escape_concat(field@.take(i as int), seq![field@[i as int]]);
            assert(json_escape(seq![c]) == json_escape_char(c) + json_escape(
                Seq::<char>::empty(),
            )) by {
                assert(seq![c][0] == c);
                assert(seq![c].subrange(1, 1) =~= Seq::<char>::empty());
            }
            assert(json_escape(seq![c]) =~= json_escape_char(c));
        }
        if c == '"' {
            out.append("\\\"");
            proof {
                reveal_strlit("\\\"");
                assert("\\\""@ =~= json_escape_char(c));
                assert(out@ =~= o0 + json_escape(field@.take(i + 1)));
            }
        } else if c == '\\' {
            out.append("\\\\");
            proof {
                reveal_strlit("\\\\");
                assert("\\\\"@ =~= json_escape_char(c));
                assert(out@ =~= o0 + json_escape(field@.take(i + 1)));
            }
        } else if (c as u32) < 32 {
            out.append("\\u00");
            let hi = hex_digit_char(((c as u32) / 16) as u8);
            let lo = hex_digit_char(((c as u32) % 16) as u8);
            push_char(out, hi);
            push_char(out, lo);
            proof {
                reveal_strlit("\\u00");
                assert("\\u00"@ =~= seq!['\\', 'u', '0', '0']);
                assert(out@ =~= o0 + json_escape(field@.take(i + 1)));
            }
        } else {
            push_char(out, c);
            proof {
                assert(seq![c] =~= json_escape_char(c));
                assert(out@ =~= o0 + json_escape(field@.take(i + 1)));
            }
        }
        i = i + 1;
    }
    proof {
        assert(field@.take(n as int) =~= field@);
    }
}

/// The hexadecimal digit for a value below sixteen.
fn hex_digit_char(n: u8) -> (c: char)
    requires
        n < 16,
    ensures
        c == hex_digit(n as int),
{
    match n {
        0 => '0',
        1 => '1',
        2 => '2',
        3 => '3',
        4 => '4',
        5 => '5',
        6 => '6',
        7 => '7',
        8 => '8',
        9 => '9',
        10 => 'a',
        11 => 'b',
        12 => 'c',
        13 => 'd',
        14 => 'e',
        _ => 'f',
    }
}

/// Appends one encoded record.
fn append_json_record(out: &mut String, sn: &str, bluetooth: &str, wired: &str, wireless: &str)
    ensures
        final(out)@ == old(out)@ + json_record(
            RecordModel {
                sn: sn@,
                bluetooth_mac: bluetooth@,
                wired_mac: wired@,
                wireless_mac: wireless@,
            },
        ),
{
    out.append("  {\n    \"sn\": \"");
    append_json_escaped(out, sn);
    out.append("\",\n    \"bluetooth_mac\": \"");
    append_json_escaped(out, bluetooth);
    out.append("\",\n    \"wired_mac\": \"");
    append_json_escaped(out, wired);
    out.append("\",\n    \"wireless_mac\": \"");
    append_json_escaped(out, wireless);
    out.append("\"\n  }");
    proof {
        let r = RecordModel {
            sn: sn@,
            bluetooth_mac: bluetooth@,
            wired_mac: wired@,
            wireless_mac: wireless@,
        };
        assert(out@ =~= old(out)@ + json_record(r));
    }
}

/// Renders the record set as the structured document.
pub fn json_export(rs: &ResultSet) -> (r: String)
    ensures
        r@ == json_document(rs@),
{
    let records = rs.records();
    let n = records.len();
    if n == 0 {
        let mut out = String::new();
        out.append("[]");
        proof {
            assert(out@ =~= "[]"@);
        }
        return out;
    }
    let mut out = String::new();
    out.append("[\n");
    let d = &records[0];
    append_json_record(&mut out, d.sn.as_str(), d.bluetooth_mac.as_str(), d.wired_mac.as_str(),
        d.wireless_mac.as_str());
    proof {
        assert(rs@.take(1) =~= seq![rs@[0]]);
        assert(seq![rs@[0]][0] == rs@[0]);
        assert(out@ =~= lit_open() + json_records(rs@.take(1)));
    }
    let mut i: usize = 1;
    while i < n
        invariant
            1 <= i <= n,
            n == records@.len(),
            n == rs@.len(),
            forall|j: int| 0 <= j < n ==> records@[j]@ == rs@[j],
            out@ == lit_open() + json_records(rs@.take(i as int)),
        decreases n - i,
    {
        out.append(",\n");
        let d = &records[i];
        append_json_record(&mut out, d.sn.as_str(), d.bluetooth_mac.as_str(), d.wired_mac.as_str(),
            d.wireless_mac.as_str());
        proof {
            assert(rs@.take(i + 1) =~= rs@.take(i as int).push(rs@[i as int]));
            lemma_json_records_snoc(rs@.take(i as int), rs@[i as int]);
            assert(out@ =~= lit_open() + json_records(rs@.take(i + 1)));
        }
        i = i + 1;
    }
    out.append("\n]");
    proof {
        assert(rs@.take(n as int) =~= rs@);
        assert(out@ =~= json_document(rs@));
    }
    out
}

} // verus!
