use vstd::prelude::*;

verus! {

/// How many of the most recent day-to-day changes the overview keeps for
/// each symbol.
pub const RECENT_CHANGES: usize = 5;

/// One cell of the overview table: the change on `date` in percent and the
/// closing price that day, either of which may be missing.
pub struct DayChange<P> {
    pub date: String,
    pub pct: Option<P>,
    pub close: Option<P>,
}

/// One line of the overview table: a symbol and its cells, one per date of
/// the displayed window.
pub struct SymbolRow<P> {
    pub symbol: String,
    pub changes: Vec<DayChange<P>>,
}

/// A day's close together with the close of the trading day before it,
/// from which the change in percent is computed.
pub struct CloseStep<P> {
    pub date: String,
    pub prev_close: Option<P>,
    pub close: Option<P>,
}

/// How many steps are taken from `n` rows: one fewer than the rows, at most
/// [`RECENT_CHANGES`].
pub open spec fn step_count(n: nat) -> nat {
    if n <= 1 {
        0
    } else if n - 1 <= RECENT_CHANGES {
        (n - 1) as nat
    } else {
        RECENT_CHANGES as nat
    }
}

/// Pairs each of the most recent days with the day before it.
///
/// `rows` holds (date, close) of one symbol, newest first. Step `k` is day
/// `k` with the close of day `k + 1` as its previous close; at most
/// [`RECENT_CHANGES`] steps are taken, and one fewer than the rows.
pub fn recent_changes<P: Copy>(rows: &Vec<(String, Option<P>)>) -> (r: Vec<CloseStep<P>>)
    ensures
        r.len() == step_count(rows.len() as nat),
        forall|k: int|
            0 <= k < r.len() ==> {
                &&& (#[trigger] r@[k]).date@ == rows@[k].0@
                &&& r@[k].close == rows@[k].1
                &&& r@[k].prev_close == rows@[k + 1].1
            },
{
    let n = rows.len();
    let mut out: Vec<CloseStep<P>> = Vec::new();
    let mut i: usize = 0;
    let limit: usize = if n == 0 { 0 } else { n - 1 };
    while i < limit && i < RECENT_CHANGES
        invariant
            limit == (if n == 0 { 0 } else { n - 1 }),
            n == rows.len(),
            i <= limit,
            i <= RECENT_CHANGES,
            out.len() == i,
            forall|k: int|
                0 <= k < i ==> {
                    &&& (#[trigger] out@[k]).date@ == rows@[k].0@
                    &&& out@[k].close == rows@[k].1
                    &&& out@[k].prev_close == rows@[k + 1].1
                },
        decreases limit - i,
    {
        let step = CloseStep { date: rows[i].0.clone(), prev_close: rows[i + 1].1, close: rows[i].1 };
        out.push(step);
        i = i + 1;
    }
    out
}

/// The change recorded last for `date` among `cs` (a later record for the
/// same date replaces an earlier one), as (percent, close).
pub open spec fn last_change_for<P>(cs: Seq<DayChange<P>>, date: Seq<char>) -> Option<
    (Option<P>, Option<P>),
>
    decreases cs.len(),
{
    if cs.len() == 0 {
        None
    } else if cs.last().date@ == date {
        Some((cs.last().pct, cs.last().close))
    } else {
        last_change_for(cs.drop_last(), date)
    }
}

/// The (percent, close) shown for `date`: the recorded change, or nothing.
pub open spec fn cell_for<P>(cs: Seq<DayChange<P>>, date: Seq<char>) -> (Option<P>, Option<P>) {
    match last_change_for(cs, date) {
        Some(v) => v,
        None => (None, None),
    }
}

/// The line of the table for `symbol` with changes `cs` over `dates`.
pub open spec fn is_row_for<P>(
    row: SymbolRow<P>,
    symbol: Seq<char>,
    cs: Seq<DayChange<P>>,
    dates: Seq<String>,
) -> bool {
    &&& row.symbol@ == symbol
    &&& row.changes@.len() == dates.len()
    &&& forall|j: int|
        0 <= j < dates.len() ==> {
            &&& (#[trigger] row.changes@[j]).date@ == dates[j]@
            &&& (row.changes@[j].pct, row.changes@[j].close) == cell_for(cs, dates[j]@)
        }
}

fn change_cell<P: Copy>(cs: &Vec<DayChange<P>>, date: &String) -> (r: DayChange<P>)
    ensures
        r.date@ == date@,
        (r.pct, r.close) == cell_for(cs@, date@),
{
    let mut k: usize = cs.len();
    proof {
        assert(cs@.subrange(0, k as int) =~= cs@);
    }
    while k > 0
        invariant
            k <= cs.len(),
            last_change_for(cs@, date@) == last_change_for(cs@.subrange(0, k as int), date@),
        decreases k,
    {
        let ghost t = cs@.subrange(0, k as int);
        proof {
            assert(t.drop_last() =~= cs@.subrange(0, k - 1));
            assert(t.last() == cs@[k - 1]);
        }
        if cs[k - 1].date == *date {
            return DayChange { date: date.clone(), pct: cs[k - 1].pct, close: cs[k - 1].close };
        }
        k = k - 1;
    }
    DayChange { date: date.clone(), pct: None, close: None }
}

fn symbol_row<P: Copy>(symbol: &String, cs: &Vec<DayChange<P>>, dates: &Vec<String>) -> (r:
    SymbolRow<P>)
    ensures
        is_row_for(r, symbol@, cs@, dates@),
{
    let mut cells: Vec<DayChange<P>> = Vec::new();
    let mut j: usize = 0;
    while j < dates.len()
        invariant
            j <= dates.len(),
            cells.len() == j,
            forall|m: int|
                0 <= m < j ==> {
                    &&& (#[trigger] cells@[m]).date@ == dates@[m]@
                    &&& (cells@[m].pct, cells@[m].close) == cell_for(cs@, dates@[m]@)
                },
        decreases dates.len() - j,
    {
        let cell = change_cell(cs, &dates[j]);
        cells.push(cell);
        j = j + 1;
    }
    SymbolRow { symbol: symbol.clone(), changes: cells }
}

/// Builds the overview table: one line per symbol, and on each line one cell
/// per date of `dates`, in order. `changes[i]` holds the recent changes of
/// `symbols[i]`; a date with no recorded change gets an empty cell.
pub fn symbol_rows<P: Copy>(
    symbols: &Vec<String>,
    changes: &Vec<Vec<DayChange<P>>>,
    dates: &Vec<String>,
) -> (r: Vec<SymbolRow<P>>)
    requires
        changes.len() == symbols.len(),
    ensures
        r.len() == symbols.len(),
        forall|i: int|
            0 <= i < r.len() ==> is_row_for(
                #[trigger] r@[i],
                symbols@[i]@,
                changes@[i]@,
                dates@,
            ),
{
    let mut out: Vec<SymbolRow<P>> = Vec::new();
    let mut i: usize = 0;
    while i < symbols.len()
        invariant
            i <= symbols.len(),
            changes.len() == symbols.len(),
            out.len() == i,
            forall|m: int|
                0 <= m < i ==> is_row_for(#[trigger] out@[m], symbols@[m]@, changes@[m]@, dates@),
        decreases symbols.len() - i,
    {
        let row = symbol_row(&symbols[i], &changes[i], dates);
        out.push(row);
        i = i + 1;
    }
    out
}

/// When a date was recorded more than once, the table shows the later
/// record; a date never recorded shows an empty cell.
pub proof fn later_record_wins<P>(cs: Seq<DayChange<P>>, c: DayChange<P>, date: Seq<char>)
    ensures
        c.date@ == date ==> cell_for(cs.push(c), date) == (c.pct, c.close),
        c.date@ != date ==> cell_for(cs.push(c), date) == cell_for(cs, date),
        (forall|k: int| 0 <= k < cs.len() ==> (#[trigger] cs[k]).date@ != date) ==> cell_for(
            cs,
            date,
        ) == (None::<P>, None::<P>),
    decreases cs.len(),
{
    assert(cs.push(c).drop_last() =~= cs);
    if cs.len() > 0 {
        later_record_wins(cs.drop_last(), cs.last(), date);
        if forall|k: int| 0 <= k < cs.len() ==> (#[trigger] cs[k]).date@ != date {
            assert(cs.last().date@ != date);
            assert forall|k: int| 0 <= k < cs.drop_last().len() implies (
            #[trigger] cs.drop_last()[k]).date@ != date by {
                assert(cs.drop_last()[k] == cs[k]);
            }
            assert(cs.drop_last().push(cs.last()) =~= cs);
        }
    }
}

} // verus!
