//! The tabular encoding: one fixed header row, then one row per record in the
//! set's own order, each terminated by a newline. The column order is fixed —
//! identifier, wired, wireless, bluetooth — and a field is quoted exactly
//! when it contains a delimiter, a quote or a line break, with inner quotes
//! doubled. Row order carries no meaning and consumers must not depend on it.
use vstd::prelude::*;

use crate::device::RecordModel;
use crate::result_set::ResultSet;
use crate::text::push_char;

verus! {

/// A character that forces the field it occurs in to be quoted.
pub open spec fn csv_special(c: char) -> bool {
    c == ',' || c == '"' || c == '\n' || c == '\r'
}

/// Whether a field must be quoted.
pub open spec fn needs_quoting(s: Seq<char>) -> bool {
    exists|i: int| 0 <= i < s.len() && csv_special(s[i])
}

/// The field text with every quote doubled.
pub open spec fn double_quotes(s: Seq<char>) -> Seq<char>
    decreases s.len(),
{
    if s.len() == 0 {
        s
    } else {
        double_quotes(s.drop_last()) + (if s.last() == '"' {
            seq!['"', '"']
        } else {
            seq![s.last()]
        })
    }
}

/// One encoded field: quoted with inner quotes doubled when it holds a
/// special character, the bare text otherwise.
pub open spec fn csv_field(s: Seq<char>) -> Seq<char> {
    if needs_quoting(s) {
        seq!['"'] + double_quotes(s) + seq!['"']
    } else {
        s
    }
}

/// One encoded row, newline-terminated.
pub open spec fn csv_row(r: RecordModel) -> Seq<char> {
    csv_field(r.sn) + seq![','] + csv_field(r.wired_mac) + seq![','] + csv_field(r.wireless_mac)
        + seq![','] + csv_field(r.bluetooth_mac) + seq!['\n']
}

/// The header row.
pub open spec fn csv_header() -> Seq<char> {
    "SN,wired_mac,wireless_mac,bluetooth_mac\n"@
}

/// All data rows, in record order.
pub open spec fn csv_rows(s: Seq<RecordModel>) -> Seq<char>
    decreases s.len(),
{
    if s.len() == 0 {
        Seq::empty()
    } else {
        csv_rows(s.drop_last()) + csv_row(s.last())
    }
}

/// The whole document: the header row, then the data rows.
pub open spec fn csv_document(s: Seq<RecordModel>) -> Seq<char> {
    csv_header() + csv_rows(s)
}

/// Appends one encoded field.
fn append_csv_field(out: &mut String, field: &str)
    ensures
        final(out)@ == old(out)@ + csv_field(field@),
{
    let n = field.unicode_len();
    let mut quote = false;
    let mut i: usize = 0;
    while i < n
        invariant
            i <= n,
            n == field@.len(),
            quote == exists|j: int| 0 <= j < i && csv_special(field@[j]),
        decreases n - i,
    {
        let c = field.get_char(i);
        if c == ',' || c == '"' || c == '\n' || c == '\r' {
            quote = true;
        }
        i = i + 1;
    }
    if !quote {
        assert(csv_field(field@) == field@);
        out.append(field);
        return ;
    }
    let ghost o0 = out@;
    push_char(out, '"');
    let mut k: usize = 0;
    proof {
        assert(out@ =~= o0 + seq!['"'] + double_quotes(field@.take(0)));
    }
    while k < n
        invariant
            k <= n,
            n == field@.len(),
            out@ == o0 + seq!['"'] + double_quotes(field@.take(k as int)),
        decreases n - k,
    {
        let c = field.get_char(k);
        proof {
            assert(field@.take(k + 1).drop_last() =~= field@.take(k as int));
            assert(field@.take(k + 1).last() == field@[k as int]);
        }
        push_char(out, c);
        if c == '"' {
            push_char(out, c);
            proof {
                assert(out@ =~= o0 + seq!['"'] + double_quotes(field@.take(k + 1)));
            }
        } else {
            proof {
                assert(out@ =~= o0 + seq!['"'] + double_quotes(field@.take(k + 1)));
            }
        }
        k = k + 1;
    }
    push_char(out, '"');
    proof {
        assert(field@.take(n as int) =~= field@);
        assert(out@ =~= o0 + csv_field(field@));
    }
}

/// Renders the record set as the tabular document. The output is a pure
/// function of the set's contents, so repeated exports of an unchanged set
/// are identical.
pub fn csv_export(rs: &ResultSet) -> (r: String)
    ensures
        r@ == csv_document(rs@),
{
    let mut out = String::new();
    out.append("SN,wired_mac,wireless_mac,bluetooth_mac\n");
    let records = rs.records();
    let n = records.len();
    let mut i: usize = 0;
    proof {
        assert(out@ =~= csv_header() + csv_rows(rs@.take(0)));
    }
    while i < n
        invariant
            i <= n,
            n == records@.len(),
            n == rs@.len(),
            forall|j: int| 0 <= j < n ==> records@[j]@ == rs@[j],
            out@ == csv_header() + csv_rows(rs@.take(i as int)),
        decreases n - i,
    {
        proof {
            assert(rs@.take(i + 1).drop_last() =~= rs@.take(i as int));
            assert(rs@.take(i + 1).last() == rs@[i as int]);
        }
        let d = &records[i];
        append_csv_field(&mut out, d.sn.as_str());
        push_char(&mut out, ',');
        append_csv_field(&mut out, d.wired_mac.as_str());
        push_char(&mut out, ',');
        append_csv_field(&mut out, d.wireless_mac.as_str());
        push_char(&mut out, ',');
        append_csv_field(&mut out, d.bluetooth_mac.as_str());
        push_char(&mut out, '\n');
        proof {
            assert(out@ =~= csv_header() + csv_rows(rs@.take(i + 1)));
        }
        i = i + 1;
    }
    proof {
        assert(rs@.take(n as int) =~= rs@);
    }
    out
}

/// Exporting an unchanged record set again yields the identical document:
/// the same header and, row for row, the same row sequence — in particular
/// the same row multiset.
pub proof fn lemma_csv_export_idempotent(a: Seq<RecordModel>, b: Seq<RecordModel>)
    requires
        a == b,
    ensures
        csv_document(a) == csv_document(b),
        a.map_values(|r: RecordModel| csv_row(r)).to_multiset() == b.map_values(
            |r: RecordModel| csv_row(r),
        ).to_multiset(),
{
}

/// The document is the header followed by exactly one row per record, in
/// record order.
pub proof fn lemma_csv_document_shape(s: Seq<RecordModel>)
    ensures
        csv_document(s).subrange(0, csv_header().len() as int) == csv_header(),
        s.len() == 0 ==> csv_document(s) == csv_header(),
{
    assert((csv_header() + csv_rows(s)).subrange(0, csv_header().len() as int) =~= csv_header());
    if s.len() == 0 {
        assert(csv_header() + csv_rows(s) =~= csv_header());
    }
}

} // verus!
