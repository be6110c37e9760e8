//! Reading a manifold back from its text.

use crate::format::{NEWLINE, RETURN};
use crate::json::{json_row, parse_row, Entry};
use crate::manifold::{Manifold, Payload};
use crate::node::{Node, QuadEdge};
use crate::table::{at, Table};
use vstd::prelude::*;
use vstd::slice::slice_subrange;

verus! {

/// Why a text was not taken in.
#[derive(Debug)]
pub enum ImportError {
    /// A line is not a JSON array of four elements, each `null` or a pair of
    /// two numbers that fit an ordinal and a position.
    Serde(serde_json::Error),
    /// An element of a row names a record that the text does not hold.
    Ordinal { row: usize, slot: usize, ordinal: usize },
    /// An element of a row names a position outside `0..4`.
    Index { row: usize, slot: usize, index: u8 },
}

/// Where the first line of `s` ends: the place of its first line feed, or
/// its length where it has none.
pub open spec fn line_end(s: Seq<u8>) -> int
    decreases s.len(),
{
    if s.len() == 0 || s[0] == NEWLINE {
        0
    } else {
        1 + line_end(s.skip(1))
    }
}

/// A line without the carriage return that stood before its line feed.
pub open spec fn chomp(line: Seq<u8>) -> Seq<u8> {
    if line.len() > 0 && line.last() == RETURN {
        line.drop_last()
    } else {
        line
    }
}

/// The lines of a text. A line ends at a line feed, which does not belong
/// to it, nor does a carriage return just before that line feed. What
/// follows the last line feed is a line if it is not empty.
#[verifier::opaque]
pub open spec fn lines(text: Seq<u8>) -> Seq<Seq<u8>>
    decreases text.len(),
{
    let k = line_end(text);
    if text.len() == 0 {
        Seq::empty()
    } else if 0 <= k < text.len() {
        seq![chomp(text.take(k))] + lines(text.skip(k + 1))
    } else {
        seq![text]
    }
}

/// The rows that the lines hold, empty lines passed over; `None` where the
/// JSON reader refuses one of the others.
pub open spec fn parse_lines(ls: Seq<Seq<u8>>) -> Option<Seq<Seq<Entry>>>
    decreases ls.len(),
{
    if ls.len() == 0 {
        Some(Seq::empty())
    } else {
        match parse_lines(ls.drop_last()) {
            None => None,
            Some(rows) => if ls.last().len() == 0 {
                Some(rows)
            } else {
                match json_row(ls.last()) {
                    Some(row) => Some(rows.push(row)),
                    None => None,
                }
            },
        }
    }
}

/// The rows that a text holds.
pub open spec fn read_rows(text: Seq<u8>) -> Option<Seq<Seq<Entry>>> {
    parse_lines(lines(text))
}

/// An element is `null`, or names a position in `0..4` of one of `n`
/// records.
pub open spec fn entry_ok(e: Entry, n: nat) -> bool {
    match e {
        None => true,
        Some((r, i)) => r < n && i < 4,
    }
}

/// Every element of every row names a position of a record among the rows
/// themselves.
pub open spec fn rows_valid(rows: Seq<Seq<Entry>>) -> bool {
    forall|k: int, j: int|
        0 <= k < rows.len() && 0 <= j < 4 ==> entry_ok(#[trigger] rows[k][j], rows.len())
}

/// The element at row `k`, slot `j` is the first, row by row, that names no
/// position of a record among the rows.
pub open spec fn first_fault(rows: Seq<Seq<Entry>>, k: int, j: int) -> bool {
    &&& 0 <= k < rows.len()
    &&& 0 <= j < 4
    &&& !entry_ok(rows[k][j], rows.len())
    &&& forall|k2: int, j2: int|
        0 <= k2 < k && 0 <= j2 < 4 ==> entry_ok(#[trigger] rows[k2][j2], rows.len())
    &&& forall|j2: int| 0 <= j2 < j ==> entry_ok(#[trigger] rows[k][j2], rows.len())
}

/// The slot that an element stands for, in a manifold that held `base`
/// records before the rows were added: ordinals in the text count from the
/// first row of the text.
pub open spec fn resolved_entry(base: nat, e: Entry) -> Option<Node> {
    match e {
        None => None,
        Some((r, i)) => Some(at(base + r, i as int)),
    }
}

/// The rows of the table that the rows of a text stand for.
pub open spec fn resolved(base: nat, rows: Seq<Seq<Entry>>) -> Table {
    Seq::new(rows.len(), |k: int| Seq::new(4, |j: int| resolved_entry(base, rows[k][j])))
}

/// Rows held as arrays, as sequences.
pub open spec fn rows_model(rows: Seq<[Entry; 4]>) -> Seq<Seq<Entry>> {
    Seq::new(rows.len(), |k: int| rows[k]@)
}

/// As many blank payloads as there are rows.
pub open spec fn blanks<V, F>(n: nat) -> Seq<Payload<V, F>> {
    Seq::new(n, |k: int| Payload::blank())
}

/// What a refusal of rows says: which element is the first at fault, and
/// what is wrong with it. The ordinal is looked at before the position.
pub open spec fn reports(e: ImportError, rows: Seq<Seq<Entry>>) -> bool {
    match e {
        ImportError::Serde(_) => false,
        ImportError::Ordinal { row, slot, ordinal } => {
            &&& first_fault(rows, row as int, slot as int)
            &&& rows[row as int][slot as int] matches Some((r, i))
            &&& r == ordinal
            &&& r >= rows.len()
        },
        ImportError::Index { row, slot, index } => {
            &&& first_fault(rows, row as int, slot as int)
            &&& rows[row as int][slot as int] matches Some((r, i))
            &&& r < rows.len()
            &&& i == index
        },
    }
}

/// The first line of `s` ends at `k` if no line feed stands before `k` and
/// one stands at `k`, or `s` ends there.
pub proof fn line_end_found(s: Seq<u8>, k: int)
    requires
        0 <= k <= s.len(),
        forall|j: int| 0 <= j < k ==> s[j] != NEWLINE,
        k == s.len() || s[k] == NEWLINE,
    ensures
        line_end(s) == k,
    decreases k,
{
    if k > 0 {
        line_end_found(s.skip(1), k - 1);
    }
}

/// Once the JSON reader has refused a line, no further line mends it.
pub proof fn parse_lines_refused(a: Seq<Seq<u8>>, b: Seq<Seq<u8>>)
    requires
        parse_lines(a) is None,
    ensures
        parse_lines(a + b) is None,
    decreases b.len(),
{
    if b.len() == 0 {
        assert(a + b =~= a);
    } else {
        parse_lines_refused(a, b.drop_last());
        assert((a + b).drop_last() =~= a + b.drop_last());
    }
}

/// Looks for the first element that names no position of a record among
/// the rows.
fn check_rows(rows: &Vec<[Entry; 4]>) -> (r: Result<(), ImportError>)
    ensures
        match r {
            Ok(()) => rows_valid(rows_model(rows@)),
            Err(e) => reports(e, rows_model(rows@)),
        },
{
    let ghost model = rows_model(rows@);
    let n: usize = rows.len();
    let mut k: usize = 0;
    while k < n
        invariant
            k <= n,
            n == rows@.len(),
            model == rows_model(rows@),
            forall|k2: int, j2: int|
                0 <= k2 < k && 0 <= j2 < 4 ==> entry_ok(#[trigger] model[k2][j2], n as nat),
        decreases n - k,
    {
        let row: [Entry; 4] = rows[k];
        let mut j: usize = 0;
        while j < 4
            invariant
                j <= 4,
                k < n,
                n == rows@.len(),
                model == rows_model(rows@),
                row == rows@[k as int],
                forall|k2: int, j2: int|
                    0 <= k2 < k && 0 <= j2 < 4 ==> entry_ok(#[trigger] model[k2][j2], n as nat),
                forall|j2: int| 0 <= j2 < j ==> entry_ok(#[trigger] model[k as int][j2], n as nat),
            decreases 4 - j,
        {
            match row[j] {
                None => {},
                Some((r, i)) => {
                    if r >= n {
                        return Err(ImportError::Ordinal { row: k, slot: j, ordinal: r });
                    }
                    if i >= 4 {
                        return Err(ImportError::Index { row: k, slot: j, index: i });
                    }
                },
            }
            j += 1;
        }
        k += 1;
    }
    Ok(())
}

/// The slot that a valid element stands for.
fn resolve(base: usize, e: Entry) -> (s: Option<Node>)
    requires
        match e {
            None => true,
            Some((r, i)) => base + r <= usize::MAX && i < 4,
        },
    ensures
        s == resolved_entry(base as nat, e),
{
    match e {
        None => None,
        Some((r, i)) => Some(Node { quad: QuadEdge { ordinal: base + r }, index: i }),
    }
}

impl<V, F> Manifold<V, F> {
    /// Adds one record for each row, the slots of the new records pointing
    /// where the rows say: an ordinal in a row counts from the first of the
    /// new records. Nothing is added unless every element of every row
    /// names a position of one of them.
    pub fn import_rows(&mut self, rows: &Vec<[Entry; 4]>) -> (r: Result<(), ImportError>)
        requires
            old(self).wf(),
        ensures
            final(self).wf(),
            match r {
                Ok(()) => {
                    &&& rows_valid(rows_model(rows@))
                    &&& final(self)@ == old(self)@ + resolved(
                        old(self)@.len(),
                        rows_model(rows@),
                    )
                    &&& final(self).payloads() == old(self).payloads() + blanks(rows@.len())
                },
                Err(e) => {
                    &&& reports(e, rows_model(rows@))
                    &&& final(self)@ == old(self)@
                    &&& final(self).payloads() == old(self).payloads()
                },
            },
    {
        match check_rows(rows) {
            Ok(()) => {},
            Err(e) => {
                return Err(e);
            },
        }
        let ghost model = rows_model(rows@);
        let ghost before = self@;
        let ghost before_payloads = self.payloads();
        let base: usize = self.len();
        let n: usize = rows.len();
        let mut k: usize = 0;
        while k < n
            invariant
                k <= n,
                self.wf(),
                self@.len() == base + k,
                before.len() == base,
                forall|q: int| 0 <= q < base ==> self@[q] == before[q],
                self.payloads() == before_payloads + blanks::<V, F>(k as nat),
            decreases n - k,
        {
            self.push_unset();
            proof {
                assert(self.payloads() =~= before_payloads + blanks::<V, F>((k + 1) as nat));
            }
            k += 1;
        }
        let total: usize = self.len();
        k = 0;
        while k < n
            invariant
                k <= n,
                n == rows@.len(),
                model == rows_model(rows@),
                rows_valid(model),
                self.wf(),
                base + n == total,
                self@.len() == total,
                before.len() == base,
                forall|q: int| 0 <= q < base ==> self@[q] == before[q],
                forall|q: int|
                    base <= q < base + k ==> #[trigger] self@[q] == resolved(
                        base as nat,
                        model,
                    )[q - base],
                self.payloads() == before_payloads + blanks::<V, F>(n as nat),
            decreases n - k,
        {
            let src: [Entry; 4] = rows[k];
            proof {
                assert(forall|j: int| 0 <= j < 4 ==> src@[j] == #[trigger] model[k as int][j]);
                assert(entry_ok(model[k as int][0], n as nat));
                assert(entry_ok(model[k as int][1], n as nat));
                assert(entry_ok(model[k as int][2], n as nat));
                assert(entry_ok(model[k as int][3], n as nat));
            }
            let row: [Option<Node>; 4] = [
                resolve(base, src[0]),
                resolve(base, src[1]),
                resolve(base, src[2]),
                resolve(base, src[3]),
            ];
            proof {
                assert(row@ =~= resolved(base as nat, model)[k as int]);
            }
            self.put_row(base + k, row);
            k += 1;
        }
        proof {
            let added = resolved(base as nat, model);
            assert forall|q: int| 0 <= q < self@.len() implies self@[q] == (before + added)[q] by {
                if q >= base {
                    assert(self@[q] == added[q - base]);
                }
            }
            assert(self@ =~= before + added);
        }
        Ok(())
    }

    /// Reads a text line by line and adds one record for each line that is
    /// not empty, as `import_rows` does for the rows that the lines hold.
    /// Nothing is added unless every such line is accepted and every element
    /// names a position of one of the new records.
    pub fn import(&mut self, text: &[u8]) -> (r: Result<(), ImportError>)
        requires
            old(self).wf(),
        ensures
            final(self).wf(),
            match r {
                Ok(()) => {
                    &&& read_rows(text@) matches Some(rows)
                    &&& rows_valid(rows)
                    &&& final(self)@ == old(self)@ + resolved(old(self)@.len(), rows)
                    &&& final(self).payloads() == old(self).payloads() + blanks(rows.len())
                },
                Err(e) => {
                    &&& final(self)@ == old(self)@
                    &&& final(self).payloads() == old(self).payloads()
                    &&& match read_rows(text@) {
                        None => e is Serde,
                        Some(rows) => reports(e, rows),
                    }
                },
            },
    {
        let mut rows: Vec<[Entry; 4]> = Vec::new();
        let n: usize = text.len();
        let mut pos: usize = 0;
        let ghost mut done: Seq<Seq<u8>> = Seq::empty();
        proof {
            assert(text@.skip(0) =~= text@);
            assert(rows_model(rows@) =~= Seq::<Seq<Entry>>::empty());
        }
        while pos < n
            invariant
                pos <= n,
                n == text@.len(),
                lines(text@) == done + lines(text@.skip(pos as int)),
                parse_lines(done) == Some(rows_model(rows@)),
                self.wf(),
                self@ == old(self)@,
                self.payloads() == old(self).payloads(),
            decreases n - pos,
        {
            let mut k: usize = pos;
            while k < n && text[k] != NEWLINE
                invariant
                    pos <= k <= n,
                    n == text@.len(),
                    forall|j: int| pos <= j < k ==> text@[j] != NEWLINE,
                decreases n - k,
            {
                k += 1;
            }
            let mut end: usize = k;
            if k < n && k > pos && text[k - 1] == RETURN {
                end = k - 1;
            }
            let after: usize = if k < n {
                k + 1
            } else {
                n
            };
            let line = slice_subrange(text, pos, end);
            proof {
                reveal(lines);
                let s = text@.skip(pos as int);
                line_end_found(s, k - pos);
                if k < n {
                    assert(s.take(k - pos) =~= text@.subrange(pos as int, k as int));
                    assert(chomp(s.take(k - pos)) =~= line@);
                    assert(s.skip(k - pos + 1) =~= text@.skip(after as int));
                } else {
                    assert(s =~= line@);
                    assert(lines(text@.skip(after as int)) =~= Seq::<Seq<u8>>::empty());
                }
                assert(lines(s) =~= seq![line@] + lines(text@.skip(after as int)));
                assert(done + lines(s) =~= done.push(line@) + lines(text@.skip(after as int)));
                assert(done.push(line@).drop_last() =~= done);
            }
            if end > pos {
                match parse_row(line) {
                    Ok(row) => {
                        proof {
                            assert(rows_model(rows@.push(row)) =~= rows_model(rows@).push(row@));
                        }
                        rows.push(row);
                    },
                    Err(e) => {
                        proof {
                            parse_lines_refused(done.push(line@), lines(text@.skip(after as int)));
                        }
                        return Err(ImportError::Serde(e));
                    },
                }
            }
            proof {
                done = done.push(line@);
            }
            pos = after;
        }
        proof {
            reveal(lines);
            assert(lines(text@.skip(pos as int)) =~= Seq::<Seq<u8>>::empty());
            assert(done + Seq::<Seq<u8>>::empty() =~= done);
        }
        self.import_rows(&rows)
    }
}

} // verus!
