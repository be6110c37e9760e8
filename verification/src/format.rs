//! The persistence format: one line of text for each record, in the order
//! of the records. A line is a JSON array of four elements, one for each
//! slot: `[r,i]` for a pointer to position `i` of the record with ordinal
//! `r`, `null` for a slot that is not set.

use crate::json::Entry;
use crate::manifold::Manifold;
use crate::node::Node;
use crate::table::Table;
use vstd::prelude::*;

verus! {

/// The line feed that ends every line.
pub const NEWLINE: u8 = 10;

/// The carriage return that may stand before a line feed.
pub const RETURN: u8 = 13;

/// `,`
pub const COMMA: u8 = 44;

/// `0`
pub const ZERO: u8 = 48;

/// `[`
pub const OPEN: u8 = 91;

/// `]`
pub const CLOSE: u8 = 93;

/// The decimal digit for `d` in `0..10`.
pub open spec fn digit(d: int) -> u8 {
    (ZERO + d) as u8
}

/// `n` in decimal digits, without leading zeros.
pub open spec fn decimal(n: nat) -> Seq<u8>
    decreases n,
{
    if n < 10 {
        seq![digit(n as int)]
    } else {
        decimal(n / 10).push(digit((n % 10) as int))
    }
}

/// The word `null`.
pub open spec fn null_text() -> Seq<u8> {
    seq![110u8, 117u8, 108u8, 108u8]
}

/// One element: `null`, or `[r,i]`.
pub open spec fn entry_text(e: Entry) -> Seq<u8> {
    match e {
        None => null_text(),
        Some((r, i)) => seq![OPEN] + decimal(r as nat) + seq![COMMA] + decimal(i as nat) + seq![
            CLOSE,
        ],
    }
}

/// One line, without the line feed that ends it: the four elements of a
/// row between brackets, with commas and nothing else between them.
pub open spec fn row_text(row: Seq<Entry>) -> Seq<u8> {
    seq![OPEN] + entry_text(row[0]) + seq![COMMA] + entry_text(row[1]) + seq![COMMA] + entry_text(
        row[2],
    ) + seq![COMMA] + entry_text(row[3]) + seq![CLOSE]
}

/// The text of a sequence of rows: each row's line and a line feed.
pub open spec fn rows_text(rows: Seq<Seq<Entry>>) -> Seq<u8>
    decreases rows.len(),
{
    if rows.len() == 0 {
        Seq::empty()
    } else {
        rows_text(rows.drop_last()) + row_text(rows.last()) + seq![NEWLINE]
    }
}

/// What the text holds for a slot: the ordinal and the position number of
/// the node it points at.
pub open spec fn entry_of(s: Option<Node>) -> Entry {
    match s {
        None => None,
        Some(n) => Some((n.quad.ordinal, n.index)),
    }
}

/// The rows that the text holds for a table.
pub open spec fn entries_of(t: Table) -> Seq<Seq<Entry>> {
    Seq::new(t.len(), |q: int| Seq::new(4, |i: int| entry_of(t[q][i])))
}

/// The text of a table.
pub open spec fn export_text(t: Table) -> Seq<u8> {
    rows_text(entries_of(t))
}

/// Appends `n` in decimal.
fn push_decimal(out: &mut Vec<u8>, n: usize)
    ensures
        final(out)@ == old(out)@ + decimal(n as nat),
    decreases n,
{
    if n >= 10 {
        push_decimal(out, n / 10);
    }
    let d: u8 = (n % 10) as u8;
    out.push(ZERO + d);
    proof {
        if n >= 10 {
            assert(out@ =~= old(out)@ + decimal(n as nat));
        } else {
            assert(out@ =~= old(out)@ + decimal(n as nat));
        }
    }
}

/// Appends one element.
fn push_entry(out: &mut Vec<u8>, s: Option<Node>)
    ensures
        final(out)@ == old(out)@ + entry_text(entry_of(s)),
{
    match s {
        None => {
            out.push(110u8);
            out.push(117u8);
            out.push(108u8);
            out.push(108u8);
        },
        Some(n) => {
            out.push(OPEN);
            push_decimal(out, n.quad.ordinal);
            out.push(COMMA);
            push_decimal(out, n.index as usize);
            out.push(CLOSE);
        },
    }
    proof {
        assert(out@ =~= old(out)@ + entry_text(entry_of(s)));
    }
}

/// Appends the line of one record, with its line feed.
fn push_row(out: &mut Vec<u8>, row: &[Option<Node>; 4])
    ensures
        final(out)@ == old(out)@ + row_text(Seq::new(4, |i: int| entry_of(row@[i]))) + seq![
            NEWLINE,
        ],
{
    let ghost entries = Seq::new(4, |i: int| entry_of(row@[i]));
    let ghost start = out@;
    out.push(OPEN);
    push_entry(out, row[0]);
    let ghost first = seq![OPEN] + entry_text(entries[0]);
    assert(out@ =~= start + first);
    out.push(COMMA);
    push_entry(out, row[1]);
    let ghost second = first + seq![COMMA] + entry_text(entries[1]);
    assert(out@ =~= start + second);
    out.push(COMMA);
    push_entry(out, row[2]);
    let ghost third = second + seq![COMMA] + entry_text(entries[2]);
    assert(out@ =~= start + third);
    out.push(COMMA);
    push_entry(out, row[3]);
    let ghost fourth = third + seq![COMMA] + entry_text(entries[3]);
    assert(out@ =~= start + fourth);
    out.push(CLOSE);
    out.push(NEWLINE);
    assert(row_text(entries) == fourth + seq![CLOSE]);
    assert(out@ =~= start + row_text(entries) + seq![NEWLINE]);
}

impl<V, F> Manifold<V, F> {
    /// The manifold's topology as text: one line for each record, in the
    /// order of the records, each ended by a line feed.
    pub fn export(&self) -> (out: Vec<u8>)
        ensures
            out@ == export_text(self@),
    {
        let mut out: Vec<u8> = Vec::new();
        let n: usize = self.len();
        let mut q: usize = 0;
        while q < n
            invariant
                q <= n,
                n == self@.len(),
                out@ == rows_text(entries_of(self@).take(q as int)),
            decreases n - q,
        {
            let row: [Option<Node>; 4] = self.row(q);
            push_row(&mut out, &row);
            proof {
                let rows = entries_of(self@);
                assert(rows.take(q + 1).drop_last() =~= rows.take(q as int));
                assert(rows.take(q + 1).last() =~= Seq::new(4, |i: int| entry_of(row@[i])));
            }
            q += 1;
        }
        proof {
            assert(entries_of(self@).take(n as int) =~= entries_of(self@));
        }
        out
    }
}

} // verus!
