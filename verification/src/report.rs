use crate::calendar::{stamp_text, ClockReading, Timestamp};
use crate::frequency::{lemma_listing_unique, lists, FrequencyTable};
use crate::mac::{compact_hex_text, MacAddress};
use crate::text::{append_decimal, decimal_text};
use vstd::prelude::*;

verus! {

/// One row of a table as text: key, tab, count, end of line.
pub open spec fn row_text(row: (u64, u64)) -> Seq<char> {
    decimal_text(row.0 as nat) + seq!['\t'] + decimal_text(row.1 as nat) + seq!['\n']
}

/// The rows of a table as text, one line for each row, in their order.
pub open spec fn table_text(rows: Seq<(u64, u64)>) -> Seq<char>
    decreases rows.len(),
{
    if rows.len() == 0 {
        Seq::empty()
    } else {
        table_text(rows.drop_last()) + row_text(rows.last())
    }
}

/// The name that a table is written under: the source address without
/// separators, the two ends of the window as they were given, and what the
/// table holds.
pub open spec fn report_name(
    mac: Seq<u8>,
    first: ClockReading,
    last: ClockReading,
    ending: Seq<char>,
) -> Seq<char> {
    compact_hex_text(mac) + seq!['-'] + stamp_text(first) + seq!['-', '-'] + stamp_text(last)
        + ending
}

/// The end of the name of the table of lengths.
pub open spec fn length_ending() -> Seq<char> {
    "-len-distr.tsv"@
}

/// The end of the name of the table of gaps between arrivals.
pub open spec fn interval_ending() -> Seq<char> {
    "-arrival-interval-distr.tsv"@
}

/// Writes rows as tab-separated lines.
pub fn render_rows(rows: &Vec<(u64, u64)>) -> (r: String)
    ensures
        r@ == table_text(rows@),
{
    let mut out = String::new();
    let mut i: usize = 0;
    while i < rows.len()
        invariant
            i <= rows.len(),
            out@ == table_text(rows@.take(i as int)),
        decreases rows.len() - i,
    {
        proof {
            reveal_strlit("\t");
            reveal_strlit("\n");
            assert(rows@.take(i + 1).drop_last() =~= rows@.take(i as int));
            assert(rows@.take(i + 1).last() == rows@[i as int]);
        }
        let ghost before = out@;
        let row = rows[i];
        append_decimal(&mut out, row.0);
        out.append("\t");
        append_decimal(&mut out, row.1);
        out.append("\n");
        assert(out@ =~= before + row_text(row));
        i = i + 1;
    }
    assert(rows@.take(rows.len() as int) =~= rows@);
    out
}

/// Writes a table as tab-separated lines in ascending order of the keys.
pub fn render_table(table: &FrequencyTable) -> (r: String)
    ensures
        exists|rows: Seq<(u64, u64)>| lists(rows, table@) && r@ == #[trigger] table_text(rows),
{
    let rows = table.rows();
    render_rows(&rows)
}

/// A table has one text: whatever order its keys were met or stored in,
/// two listings of the same counts are written the same, character for
/// character.
pub proof fn lemma_one_text(a: Seq<(u64, u64)>, b: Seq<(u64, u64)>, counts: Map<u64, u64>)
    requires
        lists(a, counts),
        lists(b, counts),
    ensures
        table_text(a) == table_text(b),
{
    lemma_listing_unique(a, b, counts);
}

/// Puts the name of a report together.
fn name_with(mac: &MacAddress, first: &Timestamp, last: &Timestamp, ending: &str) -> (r: String)
    ensures
        r@ == report_name(mac@, first@, last@, ending@),
{
    proof {
        reveal_strlit("-");
        reveal_strlit("--");
    }
    let mut out = mac.format_compact_hex();
    out.append("-");
    out.append(first.stamp().as_str());
    out.append("--");
    out.append(last.stamp().as_str());
    out.append(ending);
    assert(out@ =~= report_name(mac@, first@, last@, ending@));
    out
}

/// The name of the file that the table of lengths is written to.
pub fn length_report_name(mac: &MacAddress, first: &Timestamp, last: &Timestamp) -> (r: String)
    ensures
        r@ == report_name(mac@, first@, last@, length_ending()),
{
    name_with(mac, first, last, "-len-distr.tsv")
}

/// The name of the file that the table of gaps between arrivals is written
/// to.
pub fn interval_report_name(mac: &MacAddress, first: &Timestamp, last: &Timestamp) -> (r: String)
    ensures
        r@ == report_name(mac@, first@, last@, interval_ending()),
{
    name_with(mac, first, last, "-arrival-interval-distr.tsv")
}

} // verus!
