//! Writing a manifold and reading it back: what is proved of the two
//! together, and what rests on the JSON reader.

use crate::format::{
    decimal, entries_of, entry_of, entry_text, export_text, row_text, rows_text, CLOSE, NEWLINE,
};
use crate::json::{json_row, Entry};
use crate::node::Node;
use crate::persist::{
    chomp, entry_ok, line_end_found, lines, parse_lines, read_rows, resolved, rows_valid,
};
use crate::table::{well_formed, Table};
use vstd::prelude::*;

verus! {

/// The lines that `rows_text` writes, one for each row.
pub open spec fn texts(rows: Seq<Seq<Entry>>) -> Seq<Seq<u8>> {
    Seq::new(rows.len(), |k: int| row_text(rows[k]))
}

/// The JSON reader returns each of these rows when it is given the line
/// written for that row.
pub open spec fn reader_returns(rows: Seq<Seq<Entry>>) -> bool {
    forall|k: int| 0 <= k < rows.len() ==> json_row(row_text(#[trigger] rows[k])) == Some(rows[k])
}

/// A number in decimal is one digit or more, and digits only.
pub proof fn decimal_is_digits(n: nat)
    ensures
        decimal(n).len() > 0,
        forall|j: int| 0 <= j < decimal(n).len() ==> 48 <= #[trigger] decimal(n)[j] <= 57,
    decreases n,
{
    if n >= 10 {
        decimal_is_digits(n / 10);
    }
}

/// No element holds a line feed.
pub proof fn entry_text_one_line(e: Entry)
    ensures
        forall|j: int| 0 <= j < entry_text(e).len() ==> #[trigger] entry_text(e)[j] != NEWLINE,
{
    match e {
        None => {},
        Some((r, i)) => {
            decimal_is_digits(r as nat);
            decimal_is_digits(i as nat);
        },
    }
}

/// The line of a row holds no line feed, and ends with its closing bracket.
pub proof fn row_text_one_line(row: Seq<Entry>)
    ensures
        row_text(row).len() > 0,
        row_text(row).last() == CLOSE,
        forall|j: int| 0 <= j < row_text(row).len() ==> #[trigger] row_text(row)[j] != NEWLINE,
{
    entry_text_one_line(row[0]);
    entry_text_one_line(row[1]);
    entry_text_one_line(row[2]);
    entry_text_one_line(row[3]);
}

/// A text that begins with a line and its line feed: the line comes first,
/// the lines of the rest follow.
pub proof fn first_line(a: Seq<u8>, b: Seq<u8>)
    requires
        forall|j: int| 0 <= j < a.len() ==> a[j] != NEWLINE,
    ensures
        lines(a + seq![NEWLINE] + b) == seq![chomp(a)] + lines(b),
{
    reveal(lines);
    let t = a + seq![NEWLINE] + b;
    line_end_found(t, a.len() as int);
    assert(t.take(a.len() as int) =~= a);
    assert(t.skip(a.len() as int + 1) =~= b);
}

/// The text of some rows and what follows it: the text of all rows but
/// the last, then the last row's line, its line feed, and what follows.
proof fn rows_text_unfolded(rows: Seq<Seq<Entry>>, rest: Seq<u8>)
    requires
        rows.len() > 0,
    ensures
        rows_text(rows) + rest == rows_text(rows.drop_last()) + (row_text(rows.last()) + seq![
            NEWLINE,
        ] + rest),
{
    let head = rows_text(rows.drop_last());
    let line = row_text(rows.last());
    assert(rows_text(rows) == head + line + seq![NEWLINE]);
    assert((head + line + seq![NEWLINE]) + rest =~= head + (line + seq![NEWLINE] + rest));
}

/// The lines written for some rows: those of all rows but the last, then
/// the last row's line.
proof fn texts_unfolded(rows: Seq<Seq<Entry>>)
    requires
        rows.len() > 0,
    ensures
        texts(rows) == texts(rows.drop_last()).push(row_text(rows.last())),
        texts(rows).drop_last() == texts(rows.drop_last()),
        texts(rows).last() == row_text(rows.last()),
{
    assert(texts(rows) =~= texts(rows.drop_last()).push(row_text(rows.last())));
    assert(texts(rows).drop_last() =~= texts(rows.drop_last()));
}

/// The lines of a written text, and of whatever follows it, are the lines
/// written, then those of what follows.
pub proof fn lines_of_rows_text(rows: Seq<Seq<Entry>>, rest: Seq<u8>)
    ensures
        lines(rows_text(rows) + rest) == texts(rows) + lines(rest),
    decreases rows.len(),
{
    if rows.len() == 0 {
        assert(rows_text(rows) + rest =~= rest);
        assert(texts(rows) + lines(rest) =~= lines(rest));
    } else {
        let init = rows.drop_last();
        let line = row_text(rows.last());
        let tail = line + seq![NEWLINE] + rest;
        lines_of_rows_text(init, tail);
        row_text_one_line(rows.last());
        first_line(line, rest);
        rows_text_unfolded(rows, rest);
        texts_unfolded(rows);
        assert(texts(init) + (seq![line] + lines(rest)) =~= texts(init).push(line) + lines(rest));
    }
}

/// Where the JSON reader returns each row for its line, the lines written
/// for the rows are read as those rows.
pub proof fn parse_written_lines(rows: Seq<Seq<Entry>>)
    requires
        reader_returns(rows),
    ensures
        parse_lines(texts(rows)) == Some(rows),
    decreases rows.len(),
{
    if rows.len() == 0 {
        assert(rows =~= Seq::<Seq<Entry>>::empty());
    } else {
        let init = rows.drop_last();
        assert forall|k: int| 0 <= k < init.len() implies json_row(row_text(#[trigger] init[k]))
            == Some(init[k]) by {
            assert(init[k] == rows[k]);
        }
        parse_written_lines(init);
        row_text_one_line(rows.last());
        texts_unfolded(rows);
        assert(json_row(row_text(rows[rows.len() - 1])) == Some(rows[rows.len() - 1]));
        assert(init.push(rows.last()) =~= rows);
    }
}

/// The rows written for a well-formed table name positions of records of
/// that table only, and stand for the table itself: every next-pointer
/// comes back as it was, under the numbering of the records by ordinal.
pub proof fn rows_round_trip(t: Table)
    requires
        well_formed(t),
    ensures
        entries_of(t).len() == t.len(),
        rows_valid(entries_of(t)),
        resolved(0, entries_of(t)) == t,
{
    let rows = entries_of(t);
    let u = resolved(0, rows);
    assert forall|k: int, j: int| 0 <= k < u.len() && 0 <= j < 4 implies #[trigger] u[k][j]
        == t[k][j] by {
        let s = t[k][j];
        assert(rows[k][j] == entry_of(s));
    }
    assert forall|k: int| 0 <= k < u.len() implies #[trigger] u[k] == t[k] by {
        assert(t[k].len() == 4);
        assert(u[k] =~= t[k]);
    }
    assert(u =~= t);
    assert forall|k: int, j: int| 0 <= k < rows.len() && 0 <= j < 4 implies entry_ok(
        #[trigger] rows[k][j],
        rows.len(),
    ) by {
        let s = t[k][j];
        assert(rows[k][j] == entry_of(s));
    }
}

/// Export, then import. The text written for a well-formed table splits
/// into the lines written for its records, one each and in their order;
/// the rows written stand for the table itself. So where the JSON reader
/// returns each row for its line, reading the text gives those rows, and
/// importing them into an empty manifold rebuilds the table.
pub proof fn export_import_round_trip(t: Table)
    requires
        well_formed(t),
    ensures
        lines(export_text(t)) == texts(entries_of(t)),
        rows_valid(entries_of(t)),
        resolved(0, entries_of(t)) == t,
        Seq::<Seq<Option<Node>>>::empty() + resolved(0, entries_of(t)) == t,
        reader_returns(entries_of(t)) ==> read_rows(export_text(t)) == Some(entries_of(t)),
{
    let rows = entries_of(t);
    rows_round_trip(t);
    lines_of_rows_text(rows, Seq::empty());
    assert(rows_text(rows) + Seq::<u8>::empty() =~= rows_text(rows));
    assert(lines(Seq::<u8>::empty()) =~= Seq::<Seq<u8>>::empty()) by {
        reveal(lines);
    }
    assert(texts(rows) + Seq::<Seq<u8>>::empty() =~= texts(rows));
    assert(Seq::<Seq<Option<Node>>>::empty() + t =~= t);
    if reader_returns(rows) {
        parse_written_lines(rows);
    }
}

} // verus!
