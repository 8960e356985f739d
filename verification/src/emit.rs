//! Report emitter: serializes the aggregated collection into the tabular
//! text report.
//!
//! One header row `path,accessed`, then one row of two fields per record.
//! A field containing the separator, a quote or a newline is quoted, with
//! embedded quotes doubled. Writing the text to its destination is the
//! surrounding program's step; a failure there is a `WriteFailure` and
//! leaves the in-memory results available.

use crate::classify::AuditRecord;
use vstd::prelude::*;

verus! {

/// Characters that force a field into quotes.
pub open spec fn is_special(c: char) -> bool {
    c == ',' || c == '"' || c == '\n' || c == '\r'
}

pub open spec fn needs_quoting(f: Seq<char>) -> bool {
    exists|i: int| 0 <= i < f.len() && is_special(#[trigger] f[i])
}

/// The field's characters with every embedded quote doubled.
pub open spec fn doubled(f: Seq<char>) -> Seq<char>
    decreases f.len(),
{
    if f.len() == 0 {
        Seq::<char>::empty()
    } else if f.last() == '"' {
        doubled(f.drop_last()) + seq!['"', '"']
    } else {
        doubled(f.drop_last()).push(f.last())
    }
}

/// A field as it appears in a row: verbatim, or quoted with embedded
/// quotes doubled when it holds a separator, a quote or a newline.
pub open spec fn csv_field(f: Seq<char>) -> Seq<char> {
    if needs_quoting(f) {
        seq!['"'] + doubled(f) + seq!['"']
    } else {
        f
    }
}

pub open spec fn csv_row(path: Seq<char>, accessed: Seq<char>) -> Seq<char> {
    csv_field(path) + seq![','] + csv_field(accessed) + seq!['\n']
}

pub open spec fn csv_body(rows: Seq<(Seq<char>, Seq<char>)>) -> Seq<char>
    decreases rows.len(),
{
    if rows.len() == 0 {
        Seq::<char>::empty()
    } else {
        csv_body(rows.drop_last()) + csv_row(rows.last().0, rows.last().1)
    }
}

/// The whole report: the fixed header, then one row per record.
pub open spec fn csv_report(rows: Seq<(Seq<char>, Seq<char>)>) -> Seq<char> {
    "path,accessed\n"@ + csv_body(rows)
}

/// The models of a record collection, in order.
pub open spec fn models_of(records: Seq<AuditRecord>) -> Seq<(Seq<char>, Seq<char>)> {
    records.map_values(|r: AuditRecord| r@)
}

fn is_special_char(c: char) -> (r: bool)
    ensures
        r == is_special(c),
{
    c == ',' || c == '"' || c == '\n' || c == '\r'
}

proof fn lemma_needs_quoting_step(f: Seq<char>, i: int)
    requires
        0 <= i < f.len(),
    ensures
        needs_quoting(f.take(i + 1)) == (needs_quoting(f.take(i)) || is_special(f[i])),
{
    let a = f.take(i);
    let b = f.take(i + 1);
    if needs_quoting(b) {
        let j = choose|j: int| 0 <= j < b.len() && is_special(b[j]);
        if j < i {
            assert(is_special(a[j]));
            assert(needs_quoting(a));
        } else {
            assert(b[j] == f[i]);
        }
    }
    if needs_quoting(a) {
        let j = choose|j: int| 0 <= j < a.len() && is_special(a[j]);
        assert(is_special(b[j]));
        assert(needs_quoting(b));
    }
    if is_special(f[i]) {
        assert(is_special(b[i]));
        assert(needs_quoting(b));
    }
}

/// Appends one field, quoted exactly when required.
fn append_field(out: &mut String, f: &str)
    ensures
        final(out)@ == old(out)@ + csv_field(f@),
{
    let n = f.unicode_len();
    let mut quote: bool = false;
    let mut i: usize = 0;
    while i < n
        invariant
            i <= n,
            n == f@.len(),
            quote == needs_quoting(f@.take(i as int)),
        decreases n - i,
    {
        if is_special_char(f.get_char(i)) {
            quote = true;
        }
        proof {
            lemma_needs_quoting_step(f@, i as int);
        }
        i = i + 1;
    }
    proof {
        assert(f@.take(n as int) =~= f@);
    }
    if !quote {
        let mut i: usize = 0;
        while i < n
            invariant
                i <= n,
                n == f@.len(),
                out@ == old(out)@ + f@.take(i as int),
            decreases n - i,
        {
            crate::strbuf::push_char(out, f.get_char(i));
            i = i + 1;
            proof {
                assert(old(out)@ + f@.take(i as int) =~= (old(out)@ + f@.take(i as int - 1)).push(
                    f@[i as int - 1],
                ));
            }
        }
    } else {
        crate::strbuf::push_char(out, '"');
        let mut i: usize = 0;
        while i < n
            invariant
                i <= n,
                n == f@.len(),
                needs_quoting(f@),
                out@ == old(out)@ + seq!['"'] + doubled(f@.take(i as int)),
            decreases n - i,
        {
            let c = f.get_char(i);
            proof {
                assert(f@.take(i as int + 1).drop_last() =~= f@.take(i as int));
                assert(f@.take(i as int + 1).last() == f@[i as int]);
            }
            if c == '"' {
                crate::strbuf::push_char(out, '"');
                crate::strbuf::push_char(out, '"');
            } else {
                crate::strbuf::push_char(out, c);
            }
            i = i + 1;
            proof {
                assert(out@ =~= old(out)@ + seq!['"'] + doubled(f@.take(i as int)));
            }
        }
        crate::strbuf::push_char(out, '"');
        proof {
            assert(f@.take(n as int) =~= f@);
            assert(out@ =~= old(out)@ + csv_field(f@));
        }
    }
}

/// Serializes the collection: the header row, then one `path,accessed` row
/// per record, in collection order.
pub fn emit(records: &Vec<AuditRecord>) -> (r: String)
    ensures
        r@ == csv_report(models_of(records@)),
{
    let ghost rows = models_of(records@);
    let mut out = String::from_str("path,accessed\n");
    let n = records.len();
    let mut i: usize = 0;
    proof {
        assert(out@ =~= "path,accessed\n"@ + csv_body(rows.take(0)));
    }
    while i < n
        invariant
            i <= n,
            n == records@.len(),
            rows == models_of(records@),
            rows.len() == n,
            out@ == "path,accessed\n"@ + csv_body(rows.take(i as int)),
        decreases n - i,
    {
        proof {
            assert(rows.take(i as int + 1).drop_last() =~= rows.take(i as int));
            assert(rows.take(i as int + 1).last() == rows[i as int]);
            assert(rows[i as int] == records@[i as int]@);
        }
        let rec = &records[i];
        append_field(&mut out, rec.path.as_str());
        crate::strbuf::push_char(&mut out, ',');
        append_field(&mut out, rec.accessed.as_str());
        crate::strbuf::push_char(&mut out, '\n');
        i = i + 1;
        proof {
            assert(out@ =~= "path,accessed\n"@ + csv_body(rows.take(i as int)));
        }
    }
    proof {
        assert(rows.take(n as int) =~= rows);
    }
    out
}

} // verus!
