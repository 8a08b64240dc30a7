//! The exporter: the aggregated rows as delimited text.
//!
//! One record per row, in aggregation order; the seven fields of a record
//! separated by semicolons; each record ended by a newline; no header. A
//! field that contains a semicolon, a quote or a line break is written
//! quoted, with each quote doubled, so the record stays one line of seven
//! fields. The whole text is assembled in memory before any byte leaves
//! the process, and export runs exactly once, after the page loop ends.

use vstd::prelude::*;
use vstd::string::*;
use crate::aggregator::ResultAggregator;
use crate::harvest::OutputRow;

verus! {

/// Whether a field must be quoted: it holds the delimiter, a quote or a
/// line break.
pub open spec fn field_needs_quotes(f: Seq<char>) -> bool {
    exists|i: int|
        0 <= i < f.len() && (f[i] == ';' || f[i] == '"' || f[i] == '\n' || f[i] == '\r')
}

/// The field's text with every quote doubled.
pub open spec fn escape_quotes(f: Seq<char>) -> Seq<char>
    decreases f.len(),
{
    if f.len() == 0 {
        Seq::empty()
    } else {
        let rest = escape_quotes(f.drop_last());
        if f.last() == '"' {
            rest + seq!['"', '"']
        } else {
            rest.push(f.last())
        }
    }
}

/// One exported field: quoted and escaped when it needs quoting, the
/// bare text otherwise.
pub open spec fn field_str(f: Seq<char>) -> Seq<char> {
    if field_needs_quotes(f) {
        seq!['"'] + escape_quotes(f) + seq!['"']
    } else {
        f
    }
}

/// One exported record: seven fields joined by semicolons, then a
/// newline.
pub open spec fn record_str(f: Seq<Seq<char>>) -> Seq<char>
    recommends
        f.len() == 7,
{
    field_str(f[0]) + seq![';'] + field_str(f[1]) + seq![';'] + field_str(f[2]) + seq![';']
        + field_str(f[3]) + seq![';'] + field_str(f[4]) + seq![';'] + field_str(f[5]) + seq![';']
        + field_str(f[6]) + seq!['\n']
}

/// The whole export: every record in order, no header.
pub open spec fn export_str(rows: Seq<Seq<Seq<char>>>) -> Seq<char>
    decreases rows.len(),
{
    if rows.len() == 0 {
        Seq::empty()
    } else {
        export_str(rows.drop_last()) + record_str(rows.last())
    }
}

/// Relies on String::push: appends exactly one character.
#[verifier::external_body]
fn push_char(s: &mut String, c: char)
    ensures
        final(s)@ == old(s)@.push(c),
{
    s.push(c);
}

/// Append one field, quoting and escaping it when it needs quoting.
#[verifier::loop_isolation(false)]
fn append_field(out: &mut String, f: &str)
    ensures
        final(out)@ == old(out)@ + field_str(f@),
{
    let n = f.unicode_len();
    let mut needs = false;
    let mut i: usize = 0;
    while i < n
        invariant
            i <= n,
            n == f@.len(),
            needs ==> field_needs_quotes(f@),
            !needs ==> forall|j: int|
                0 <= j < i ==> !(f@[j] == ';' || f@[j] == '"' || f@[j] == '\n' || f@[j] == '\r'),
        decreases n - i,
    {
        let c = f.get_char(i);
        if c == ';' || c == '"' || c == '\n' || c == '\r' {
            needs = true;
        }
        i += 1;
    }
    if !needs {
        out.append(f);
        return ;
    }
    push_char(out, '"');
    let ghost started = out@;
    let mut i: usize = 0;
    while i < n
        invariant
            i <= n,
            n == f@.len(),
            out@ == started + escape_quotes(f@.take(i as int)),
        decreases n - i,
    {
        proof {
            assert(f@.take(i + 1).drop_last() =~= f@.take(i as int));
            assert(f@.take(i + 1).last() == f@[i as int]);
        }
        let c = f.get_char(i);
        if c == '"' {
            push_char(out, '"');
            push_char(out, '"');
        } else {
            push_char(out, c);
        }
        proof {
            assert(out@ =~= started + escape_quotes(f@.take(i + 1)));
        }
        i += 1;
    }
    push_char(out, '"');
    proof {
        assert(f@.take(n as int) =~= f@);
        assert(out@ =~= old(out)@ + field_str(f@));
    }
}

/// Append one row's record to the output.
fn append_record(out: &mut String, row: &OutputRow)
    ensures
        final(out)@ == old(out)@ + record_str(row@),
{
    append_field(out, row.detail_url.as_str());
    push_char(out, ';');
    append_field(out, row.name.as_str());
    push_char(out, ';');
    append_field(out, row.price_text.as_str());
    push_char(out, ';');
    append_field(out, row.volume_text.as_str());
    push_char(out, ';');
    append_field(out, row.percent_text.as_str());
    push_char(out, ';');
    append_field(out, row.alcohol_text.as_str());
    push_char(out, ';');
    append_field(out, row.unit_price_text.as_str());
    push_char(out, '\n');
    proof {
        assert(final(out)@ =~= old(out)@ + record_str(row@));
    }
}

/// Render the aggregated rows as the delimited export text.
#[verifier::loop_isolation(false)]
pub fn export_rows(agg: &ResultAggregator) -> (out: String)
    ensures
        out@ == export_str(agg@.map_values(|r: OutputRow| r@)),
{
    let ghost views = agg@.map_values(|r: OutputRow| r@);
    let rows = agg.rows();
    let mut out = String::new();
    let mut i: usize = 0;
    while i < rows.len()
        invariant
            i <= views.len(),
            views.len() == rows@.len(),
            out@ == export_str(views.take(i as int)),
        decreases views.len() - i,
    {
        proof {
            assert(views.take(i + 1).drop_last() =~= views.take(i as int));
            assert(views.take(i + 1).last() == rows@[i as int]@);
        }
        append_record(&mut out, &rows[i]);
        i += 1;
    }
    proof {
        assert(views.take(views.len() as int) =~= views);
    }
    out
}

} // verus!
