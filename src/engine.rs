//! The aggregation engine: routes the fields of each row to their columns,
//! counts them, and decides when a run fails.
//!
//! The caller reads the lines and parses the fields; the engine is told, for
//! each row, which of the fields routed to a column parsed as a number.
use vstd::prelude::*;
use crate::summary::Summary;
use crate::tokenizer::{split_fields, tokenize, views_of};

verus! {

/// Why a run failed.
#[derive(Debug, Clone, Copy, PartialEq, Eq, Structural)]
pub enum SummaryError {
    /// The input could not be read after line `line`, the last line read in full.
    Read { line: u64 },
    /// Field `field` (counted from 0) of line `line` (counted from 1, the
    /// heading line being line 1) is not a number.
    MalformedNumber { line: u64, field: usize },
}

/// The number of rows that have a field for column `column`.
pub open spec fn rows_reaching(rows: Seq<Seq<bool>>, column: int) -> nat {
    rows.filter(|r: Seq<bool>| r.len() > column).len()
}

/// The count of each of `num_columns` columns after `rows`, one entry per
/// row holding the parse outcome of each field routed to a column.
pub open spec fn column_counts(num_columns: nat, rows: Seq<Seq<bool>>) -> Seq<nat> {
    Seq::new(num_columns, |i: int| rows_reaching(rows, i))
}

/// The fields of `line` that are paired with one of `num_columns` columns:
/// the first `min(num_columns, number of fields)` of them.
pub open spec fn routed_fields(num_columns: nat, line: Seq<char>) -> Seq<Seq<char>> {
    let f = split_fields(line, ',');
    if f.len() <= num_columns {
        f
    } else {
        f.take(num_columns as int)
    }
}

/// Every routed field of a row parsed as a number.
pub open spec fn all_parsed(parsed: Seq<bool>) -> bool {
    forall|j: int| 0 <= j < parsed.len() ==> parsed[j]
}

/// `field` is the first routed field of a row that did not parse.
pub open spec fn first_unparsed(parsed: Seq<bool>, field: int) -> bool {
    &&& 0 <= field < parsed.len()
    &&& !parsed[field]
    &&& forall|j: int| 0 <= j < field ==> parsed[j]
}

pub proof fn lemma_rows_reaching_push(rows: Seq<Seq<bool>>, row: Seq<bool>, column: int)
    ensures
        rows_reaching(rows.push(row), column) == rows_reaching(rows, column) + if row.len()
            > column {
            1nat
        } else {
            0nat
        },
{
    reveal(Seq::filter);
    assert(rows.push(row).drop_last() == rows);
}

pub proof fn lemma_rows_reaching_bound(rows: Seq<Seq<bool>>, column: int)
    ensures
        rows_reaching(rows, column) <= rows.len(),
{
    rows.lemma_filter_len(|r: Seq<bool>| r.len() > column);
}

/// A run that took in no data row ends with a count of zero in every column.
pub proof fn lemma_no_rows_no_values(num_columns: nat)
    ensures
        column_counts(num_columns, Seq::empty()) == Seq::new(num_columns, |i: int| 0nat),
{
    reveal(Seq::filter);
    assert(column_counts(num_columns, Seq::empty()) =~= Seq::new(num_columns, |i: int| 0nat));
}

/// One run of the engine over the data rows of one input.
pub struct Summariser {
    num_columns: usize,
    line: u64,
    summaries: Vec<Summary>,
    running: bool,
    rows: Ghost<Seq<Seq<bool>>>,
}

impl Summariser {
    /// The number of columns, fixed when the run starts.
    pub closed spec fn spec_num_columns(&self) -> nat {
        self.num_columns as nat
    }

    /// The number of lines consumed so far, the heading line included.
    pub closed spec fn spec_line(&self) -> nat {
        self.line as nat
    }

    /// Whether the run can go on: it has not failed.
    pub closed spec fn spec_running(&self) -> bool {
        self.running
    }

    /// The rows accepted so far, each as the parse outcome of its routed fields.
    pub closed spec fn rows(&self) -> Seq<Seq<bool>> {
        self.rows@
    }

    /// The count of each column.
    pub closed spec fn counts(&self) -> Seq<nat> {
        self.summaries@.map_values(|s: Summary| s.count as nat)
    }

    pub closed spec fn wf(&self) -> bool {
        &&& self.summaries@.len() == self.num_columns
        &&& self.counts() == column_counts(self.num_columns as nat, self.rows@)
        &&& self.rows@.len() < self.line
        &&& forall|r: int| 0 <= r < self.rows@.len() ==> #[trigger] self.rows@[r].len() <= self.num_columns
    }

    /// Starts a run over `num_columns` columns, the heading line having been read.
    pub fn new(num_columns: usize) -> (s: Summariser)
        ensures
            s.wf(),
            s.spec_num_columns() == num_columns,
            s.spec_line() == 1,
            s.spec_running(),
            s.rows() == Seq::<Seq<bool>>::empty(),
            s.counts() == Seq::new(num_columns as nat, |i: int| 0nat),
    {
        let mut summaries: Vec<Summary> = Vec::new();
        let mut i: usize = 0;
        while i < num_columns
            invariant
                i <= num_columns,
                summaries@.len() == i,
                forall|k: int| 0 <= k < i ==> #[trigger] summaries@[k].count == 0,
            decreases num_columns - i,
        {
            summaries.push(Summary::new());
            i = i + 1;
        }
        let s = Summariser {
            num_columns,
            line: 1,
            summaries,
            running: true,
            rows: Ghost(Seq::empty()),
        };
        proof {
            reveal(Seq::filter);
            assert(s.counts() =~= column_counts(num_columns as nat, Seq::empty()));
            assert(s.counts() =~= Seq::new(num_columns as nat, |i: int| 0nat));
        }
        s
    }

    /// The number of columns.
    pub fn num_columns(&self) -> (n: usize)
        ensures
            n == self.spec_num_columns(),
    {
        self.num_columns
    }

    /// The number of lines consumed so far, the heading line included.
    pub fn line(&self) -> (n: u64)
        ensures
            n == self.spec_line(),
    {
        self.line
    }

    /// Whether the run can go on.
    pub fn is_running(&self) -> (b: bool)
        ensures
            b == self.spec_running(),
    {
        self.running
    }

    /// The fields of a data line that are paired with a column: a short row
    /// gives fewer, and the fields past the last column are dropped.
    pub fn row_fields<'a>(&self, line: &'a str) -> (fields: Vec<&'a str>)
        ensures
            views_of(fields@) == routed_fields(self.spec_num_columns(), line@),
            fields@.len() <= self.spec_num_columns(),
    {
        let mut fields = tokenize(line, ',');
        if fields.len() > self.num_columns {
            fields.truncate(self.num_columns);
            assert(views_of(fields@) =~= split_fields(line@, ',').take(self.num_columns as int));
        }
        fields
    }

    /// Takes in the next data line, given as the parse outcome of each of its
    /// routed fields (`parsed[j]` holds when field `j` is a number).
    ///
    /// When all of them parsed, each column that the row has a field for
    /// counts one more value. Otherwise the run fails at the first field that
    /// did not parse, and no column changes.
    pub fn accept_row(&mut self, parsed: &Vec<bool>) -> (r: Result<(), SummaryError>)
        requires
            old(self).wf(),
            old(self).spec_running(),
            parsed@.len() <= old(self).spec_num_columns(),
            old(self).spec_line() < u64::MAX,
        ensures
            final(self).wf(),
            final(self).spec_num_columns() == old(self).spec_num_columns(),
            final(self).spec_line() == old(self).spec_line() + 1,
            r is Ok <==> all_parsed(parsed@),
            r is Ok ==> final(self).spec_running() && final(self).rows() == old(self).rows().push(
                parsed@,
            ),
            r is Err ==> !final(self).spec_running() && final(self).rows() == old(self).rows(),
            forall|e: SummaryError| r == Err::<(), SummaryError>(e) ==> match e {
                SummaryError::MalformedNumber { line, field } => line == old(self).spec_line()
                    + 1 && first_unparsed(parsed@, field as int),
                SummaryError::Read { .. } => false,
            },
            final(self).counts() == column_counts(
                final(self).spec_num_columns(),
                final(self).rows(),
            ),
    {
        let line = self.line + 1;
        let n = parsed.len();
        let mut j: usize = 0;
        while j < n && parsed[j]
            invariant
                n == parsed@.len(),
                j <= n,
                forall|k: int| 0 <= k < j ==> parsed@[k],
            decreases n - j,
        {
            j = j + 1;
        }
        self.line = line;
        if j < n {
            self.running = false;
            return Err(SummaryError::MalformedNumber { line, field: j });
        }
        let ghost before = self.rows@;
        assert forall|k: int| 0 <= k < self.num_columns implies #[trigger] self.summaries@[k].count
            as nat == rows_reaching(before, k) by {
            assert(self.counts()[k] == self.summaries@[k].count as nat);
        }
        let mut i: usize = 0;
        while i < n
            invariant
                n == parsed@.len(),
                n <= self.num_columns,
                i <= n,
                self.summaries@.len() == self.num_columns,
                self.rows@ == before,
                before == old(self).rows@,
                self.num_columns == old(self).num_columns,
                self.running,
                before.len() < self.line,
                self.line == line,
                forall|r: int| 0 <= r < before.len() ==> #[trigger] before[r].len() <= self.num_columns,
                forall|k: int|
                    0 <= k < self.num_columns ==> #[trigger] self.summaries@[k].count as nat == if k
                        < i {
                        rows_reaching(before, k) + 1
                    } else {
                        rows_reaching(before, k)
                    },
            decreases n - i,
        {
            proof {
                lemma_rows_reaching_bound(before, i as int);
            }
            let mut s = self.summaries[i];
            s.record();
            self.summaries.set(i, s);
            i = i + 1;
        }
        proof {
            self.rows@ = before.push(parsed@);
            assert forall|k: int| 0 <= k < self.num_columns implies #[trigger] self.counts()[k]
                == column_counts(self.num_columns as nat, self.rows@)[k] by {
                lemma_rows_reaching_push(before, parsed@, k);
            }
            assert(self.counts() =~= column_counts(self.num_columns as nat, self.rows@));
            assert forall|r: int| 0 <= r < self.rows@.len() implies #[trigger] self.rows@[r].len()
                <= self.num_columns by {
                if r < before.len() {
                    assert(self.rows@[r] == before[r]);
                } else {
                    assert(self.rows@[r] == parsed@);
                }
            }
        }
        Ok(())
    }

    /// The input could not be read past the last line taken in: the run fails.
    pub fn read_failed(&mut self) -> (e: SummaryError)
        requires
            old(self).wf(),
            old(self).spec_running(),
        ensures
            final(self).wf(),
            !final(self).spec_running(),
            final(self).spec_num_columns() == old(self).spec_num_columns(),
            final(self).spec_line() == old(self).spec_line(),
            final(self).rows() == old(self).rows(),
            e == (SummaryError::Read { line: old(self).spec_line() as u64 }),
    {
        self.running = false;
        SummaryError::Read { line: self.line }
    }

    /// The input is exhausted: hands back one accumulator per column.
    pub fn finish(self) -> (summaries: Vec<Summary>)
        requires
            self.wf(),
            self.spec_running(),
        ensures
            summaries@.len() == self.spec_num_columns(),
            forall|i: int|
                0 <= i < summaries@.len() ==> #[trigger] summaries@[i].count as nat
                    == column_counts(self.spec_num_columns(), self.rows())[i],
    {
        let summaries = self.summaries;
        assert forall|i: int| 0 <= i < summaries@.len() implies #[trigger] summaries@[i].count as nat
            == column_counts(self.spec_num_columns(), self.rows())[i] by {
            assert(self.counts()[i] == summaries@[i].count as nat);
        }
        summaries
    }
}

/// Two runs over the same number of columns that took in the same rows hold
/// the same counts: a run keeps no state but its own, so running it again over
/// the same input gives the same accumulators.
pub proof fn lemma_same_rows_same_counts(a: Summariser, b: Summariser)
    requires
        a.wf(),
        b.wf(),
        a.spec_num_columns() == b.spec_num_columns(),
        a.rows() == b.rows(),
    ensures
        a.counts() == b.counts(),
        a.counts() == column_counts(a.spec_num_columns(), a.rows()),
{
}

} // verus!
