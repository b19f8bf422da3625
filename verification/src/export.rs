//! Choice of encoding: the destination path's extension — the text after its
//! last dot — selects the tabular or the structured encoder; any other
//! extension, or none, is a configuration fault and nothing is rendered.
use vstd::prelude::*;

use crate::csv_out::csv_document;
use crate::csv_out::csv_export;
use crate::device::ConfigError;
use crate::json_out::json_document;
use crate::json_out::json_export;
use crate::result_set::ResultSet;

verus! {

/// The two encodings on offer.
#[derive(PartialEq, Eq, Structural, Clone, Copy, Debug)]
pub enum ExportFormat {
    Csv,
    Json,
}

/// The index of the last dot of `s`, or minus one.
pub open spec fn last_dot(s: Seq<char>) -> int
    decreases s.len(),
{
    if s.len() == 0 {
        -1
    } else if s.last() == '.' {
        s.len() - 1
    } else {
        last_dot(s.drop_last())
    }
}

/// The extension: the text after the last dot, empty when there is none.
pub open spec fn extension_of(s: Seq<char>) -> Seq<char> {
    if last_dot(s) == -1 {
        Seq::empty()
    } else {
        s.subrange(last_dot(s) + 1, s.len() as int)
    }
}

/// Which encoder a path selects, if any.
pub open spec fn format_of(path: Seq<char>) -> Result<ExportFormat, ConfigError> {
    if extension_of(path) == "csv"@ {
        Ok(ExportFormat::Csv)
    } else if extension_of(path) == "json"@ {
        Ok(ExportFormat::Json)
    } else {
        Err(ConfigError::UnsupportedFormat)
    }
}

/// The last dot lies in the text, carries a dot, and no dot follows it.
proof fn lemma_last_dot(s: Seq<char>)
    ensures
        -1 <= last_dot(s) < s.len(),
        last_dot(s) >= 0 ==> s[last_dot(s)] == '.',
        forall|j: int| last_dot(s) < j < s.len() ==> s[j] != '.',
    decreases s.len(),
{
    if s.len() > 0 && s.last() != '.' {
        lemma_last_dot(s.drop_last());
        assert forall|j: int| last_dot(s) < j < s.len() implies s[j] != '.' by {
            if j == s.len() - 1 {
                assert(s[j] == s.last());
            } else {
                assert(s.drop_last()[j] == s[j]);
                assert(s.drop_last()[j] != '.');
            }
        }
    }
}

/// Reads the extension and picks the encoder.
pub fn export_format_of(path: &str) -> (r: Result<ExportFormat, ConfigError>)
    ensures
        r == format_of(path@),
{
    let n = path.unicode_len();
    proof {
        lemma_last_dot(path@);
        reveal_strlit("csv");
        reveal_strlit("json");
    }
    let mut dot: usize = n;
    let mut i: usize = n;
    while i > 0
        invariant
            0 <= i <= n,
            n == path@.len(),
            dot == n || (i <= dot < n && path@[dot as int] == '.'),
            forall|j: int| dot < j < n ==> path@[j] != '.',
            dot == n ==> forall|j: int| i <= j < n ==> path@[j] != '.',
        decreases i,
    {
        i = i - 1;
        if path.get_char(i) == '.' && dot == n {
            dot = i;
        }
    }
    proof {
        if dot == n {
            assert(last_dot(path@) == -1);
        } else {
            assert(last_dot(path@) == dot as int) by {
                assert(path@[dot as int] == '.');
                assert(forall|j: int| dot < j < n ==> path@[j] != '.');
                if last_dot(path@) > dot as int {
                    assert(path@[last_dot(path@)] == '.');
                }
                if last_dot(path@) < dot as int {
                    assert(path@[dot as int] != '.');
                }
            }
        }
    }
    if dot == n {
        proof {
            assert(extension_of(path@) =~= Seq::<char>::empty());
            assert(extension_of(path@) != "csv"@);
            assert(extension_of(path@) != "json"@);
        }
        return Err(ConfigError::UnsupportedFormat);
    }
    let ext_len = n - dot - 1;
    let ghost ext = extension_of(path@);
    proof {
        assert(ext =~= path@.subrange(dot + 1, n as int));
        assert(ext.len() == ext_len);
    }
    if ext_len == 3 && path.get_char(dot + 1) == 'c' && path.get_char(dot + 2) == 's'
        && path.get_char(dot + 3) == 'v' {
        proof {
            assert(ext =~= "csv"@);
        }
        return Ok(ExportFormat::Csv);
    }
    if ext_len == 4 && path.get_char(dot + 1) == 'j' && path.get_char(dot + 2) == 's'
        && path.get_char(dot + 3) == 'o' && path.get_char(dot + 4) == 'n' {
        proof {
            assert(ext =~= "json"@);
        }
        return Ok(ExportFormat::Json);
    }
    proof {
        assert(ext != "csv"@) by {
            if ext.len() == 3 {
                assert(ext[0] == path@[dot + 1] && ext[1] == path@[dot + 2] && ext[2] == path@[dot
                    + 3]);
            }
        }
        assert(ext != "json"@) by {
            if ext.len() == 4 {
                assert(ext[0] == path@[dot + 1] && ext[1] == path@[dot + 2] && ext[2] == path@[dot
                    + 3] && ext[3] == path@[dot + 4]);
            }
        }
    }
    Err(ConfigError::UnsupportedFormat)
}

/// Renders the record set in the encoding the path selects; an unsupported
/// path yields the configuration fault and no text at all.
pub fn render_export(path: &str, rs: &ResultSet) -> (r: Result<String, ConfigError>)
    ensures
        format_of(path@) == Ok::<ExportFormat, ConfigError>(ExportFormat::Csv) ==> (r matches Ok(s)
            && s@ == csv_document(rs@)),
        format_of(path@) == Ok::<ExportFormat, ConfigError>(ExportFormat::Json) ==> (r matches Ok(
            s,
        ) && s@ == json_document(rs@)),
        format_of(path@) matches Err(e) ==> r == Err::<String, ConfigError>(e),
        r is Ok <==> format_of(path@) is Ok,
{
    match export_format_of(path) {
        Ok(ExportFormat::Csv) => Ok(csv_export(rs)),
        Ok(ExportFormat::Json) => Ok(json_export(rs)),
        Err(e) => Err(e),
    }
}

} // verus!
