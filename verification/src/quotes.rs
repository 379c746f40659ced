use vstd::prelude::*;

verus! {

/// The price columns of one chart reply, one value per timestamp; any
/// column may be missing, and any value in it may be null.
pub struct YahooQuote<P> {
    pub open: Option<Vec<Option<P>>>,
    pub high: Option<Vec<Option<P>>>,
    pub low: Option<Vec<Option<P>>>,
    pub close: Option<Vec<Option<P>>>,
    pub volume: Option<Vec<Option<i64>>>,
}

/// One trading day of one symbol.
pub struct Daily<P> {
    pub date: String,
    pub open: Option<P>,
    pub high: Option<P>,
    pub low: Option<P>,
    pub close: Option<P>,
    pub volume: Option<i64>,
}

/// The `YYYY-MM-DD` UTC date of a Unix timestamp in seconds, as chrono
/// formats it; empty when chrono cannot represent the instant.
pub uninterp spec fn unix_utc_date(ts: i64) -> Seq<char>;

/// Trusted: calls `chrono::DateTime::<Utc>::from_timestamp(ts, 0)` and
/// formats the result with `%Y-%m-%d`, giving an empty string when chrono
/// returns `None` (an out-of-range timestamp). The calendar computation is
/// chrono's and is only named here, not stated.
#[verifier::external_body]
fn utc_date_of(ts: i64) -> (r: String)
    ensures
        r@ == unix_utc_date(ts),
{
    match chrono::DateTime::<chrono::Utc>::from_timestamp(ts, 0) {
        Some(d) => d.format("%Y-%m-%d").to_string(),
        None => String::new(),
    }
}

/// The value of column `col` at row `i`: missing when the column is missing,
/// shorter than `i + 1`, or null there.
pub open spec fn column_at<V>(col: Option<Seq<Option<V>>>, i: int) -> Option<V> {
    match col {
        Some(v) => if 0 <= i < v.len() {
            v[i]
        } else {
            None
        },
        None => None,
    }
}

/// The view of an optional column.
pub open spec fn col_view<V>(col: Option<Vec<Option<V>>>) -> Option<Seq<Option<V>>> {
    match col {
        Some(v) => Some(v@),
        None => None,
    }
}

fn column_value<V: Copy>(col: &Option<Vec<Option<V>>>, i: usize) -> (r: Option<V>)
    ensures
        r == column_at(col_view(*col), i as int),
{
    match col {
        Some(v) => if i < v.len() {
            v[i]
        } else {
            None
        },
        None => None,
    }
}

/// The plain content of a day row.
pub open spec fn daily_view<P>(d: Daily<P>) -> (
    Seq<char>,
    Option<P>,
    Option<P>,
    Option<P>,
    Option<P>,
    Option<i64>,
) {
    (d.date@, d.open, d.high, d.low, d.close, d.volume)
}

/// Row `i` of a reply is kept unless its open, close, high and low are all
/// missing.
pub open spec fn row_kept<P>(q: YahooQuote<P>, i: int) -> bool {
    !(column_at(col_view(q.open), i) is None && column_at(col_view(q.close), i) is None
        && column_at(col_view(q.high), i) is None && column_at(col_view(q.low), i) is None)
}

/// The day row built from row `i` of a reply.
pub open spec fn row_view<P>(ts: Seq<i64>, q: YahooQuote<P>, i: int) -> (
    Seq<char>,
    Option<P>,
    Option<P>,
    Option<P>,
    Option<P>,
    Option<i64>,
) {
    (
        unix_utc_date(ts[i]),
        column_at(col_view(q.open), i),
        column_at(col_view(q.high), i),
        column_at(col_view(q.low), i),
        column_at(col_view(q.close), i),
        column_at(col_view(q.volume), i),
    )
}

/// The day rows kept from the first `n` timestamps of a reply, in order.
pub open spec fn kept_rows<P>(ts: Seq<i64>, q: YahooQuote<P>, n: nat) -> Seq<
    (Seq<char>, Option<P>, Option<P>, Option<P>, Option<P>, Option<i64>),
>
    decreases n,
{
    if n == 0 {
        Seq::empty()
    } else {
        let prev = kept_rows(ts, q, (n - 1) as nat);
        if row_kept(q, n - 1) {
            prev.push(row_view(ts, q, n - 1))
        } else {
            prev
        }
    }
}

/// The day at timestamp index `i` has a price: at least one of its open,
/// high, low and close is present.
pub open spec fn priced_at<P>(q: YahooQuote<P>, i: int) -> bool {
    (if q.open is Some && 0 <= i < q.open->0.len() { q.open->0@[i] } else { None }) is Some || (if q.high is Some && 0 <= i < q.high->0.len() { q.high->0@[i] } else { None }) is Some || (if q.low is Some && 0 <= i < q.low->0.len() { q.low->0@[i] } else { None }) is Some || (if q.close is Some && 0 <= i < q.close->0.len() { q.close->0@[i] } else { None }) is Some
}

/// `rows` are the priced days among the first `n` timestamps of a reply,
/// with `idx[k]` the timestamp index that row `k` comes from: the indices
/// rise strictly, every priced index below `n` has its row, each row holds
/// the UTC date of its own timestamp and every column's value at that same
/// index.
pub open spec fn days_at<P>(
    ts: Seq<i64>,
    q: YahooQuote<P>,
    n: nat,
    rows: Seq<(Seq<char>, Option<P>, Option<P>, Option<P>, Option<P>, Option<i64>)>,
    idx: Seq<int>,
) -> bool {
    &&& idx.len() == rows.len()
    &&& forall|k: int| 0 <= k < idx.len() ==> 0 <= #[trigger] idx[k] < n
    &&& forall|k: int, j: int| 0 <= k < j < idx.len() ==> #[trigger] idx[k] < #[trigger] idx[j]
    &&& forall|k: int|
        0 <= k < rows.len() ==> {
            &&& (#[trigger] rows[k]).0 == unix_utc_date(ts[idx[k]])
            &&& rows[k].1 == (if q.open is Some && 0 <= idx[k] < q.open->0.len() { q.open->0@[idx[k]] } else { None })
            &&& rows[k].2 == (if q.high is Some && 0 <= idx[k] < q.high->0.len() { q.high->0@[idx[k]] } else { None })
            &&& rows[k].3 == (if q.low is Some && 0 <= idx[k] < q.low->0.len() { q.low->0@[idx[k]] } else { None })
            &&& rows[k].4 == (if q.close is Some && 0 <= idx[k] < q.close->0.len() { q.close->0@[idx[k]] } else { None })
            &&& rows[k].5 == (if q.volume is Some && 0 <= idx[k] < q.volume->0.len() { q.volume->0@[idx[k]] } else { None })
            &&& priced_at(q, idx[k])
        }
    &&& forall|i: int|
        0 <= i < n && priced_at(q, i) ==> exists|k: int| 0 <= k < idx.len() && #[trigger] idx[k] == i
}

/// The stored rows are exactly the priced days, in timestamp order, each
/// dated by its own timestamp's UTC day and holding every column's value at
/// its own index.
pub proof fn stored_rows_are_the_priced_days<P>(ts: Seq<i64>, q: YahooQuote<P>, n: nat)
    requires
        n <= ts.len(),
    ensures
        exists|idx: Seq<int>| days_at(ts, q, n, kept_rows(ts, q, n), idx),
    decreases n,
{
    if n == 0 {
        assert(days_at(ts, q, 0, kept_rows(ts, q, 0), Seq::<int>::empty()));
    } else {
        let m = (n - 1) as nat;
        stored_rows_are_the_priced_days(ts, q, m);
        let prev = kept_rows(ts, q, m);
        let pidx = choose|idx: Seq<int>| days_at(ts, q, m, prev, idx);
        let rows = kept_rows(ts, q, n);
        if row_kept(q, m as int) {
            let idx = pidx.push(m as int);
            assert(rows == prev.push(row_view(ts, q, m as int)));
            assert forall|k: int| 0 <= k < rows.len() implies {
                &&& (#[trigger] rows[k]).0 == unix_utc_date(ts[idx[k]])
                &&& rows[k].1 == (if q.open is Some && 0 <= idx[k] < q.open->0.len() { q.open->0@[idx[k]] } else { None })
                &&& rows[k].2 == (if q.high is Some && 0 <= idx[k] < q.high->0.len() { q.high->0@[idx[k]] } else { None })
                &&& rows[k].3 == (if q.low is Some && 0 <= idx[k] < q.low->0.len() { q.low->0@[idx[k]] } else { None })
                &&& rows[k].4 == (if q.close is Some && 0 <= idx[k] < q.close->0.len() { q.close->0@[idx[k]] } else { None })
                &&& rows[k].5 == (if q.volume is Some && 0 <= idx[k] < q.volume->0.len() { q.volume->0@[idx[k]] } else { None })
                &&& priced_at(q, idx[k])
            } by {
                if k < prev.len() {
                    assert(rows[k] == prev[k]);
                    assert(idx[k] == pidx[k]);
                }
            }
            assert forall|i: int| 0 <= i < n && priced_at(q, i) implies exists|k: int|
                0 <= k < idx.len() && #[trigger] idx[k] == i by {
                if i < m {
                    let k = choose|k: int| 0 <= k < pidx.len() && #[trigger] pidx[k] == i;
                    assert(idx[k] == i);
                } else {
                    assert(idx[idx.len() - 1] == i);
                }
            }
            assert forall|k: int, j: int| 0 <= k < j < idx.len() implies #[trigger] idx[k]
                < #[trigger] idx[j] by {
                if j < pidx.len() {
                    assert(idx[k] == pidx[k] && idx[j] == pidx[j]);
                } else {
                    assert(idx[k] == pidx[k]);
                }
            }
            assert forall|k: int| 0 <= k < idx.len() implies 0 <= #[trigger] idx[k] < n by {
                if k < pidx.len() {
                    assert(idx[k] == pidx[k]);
                }
            }
            assert(days_at(ts, q, n, rows, idx));
        } else {
            assert(rows == prev);
            assert forall|i: int| 0 <= i < n && priced_at(q, i) implies exists|k: int|
                0 <= k < pidx.len() && #[trigger] pidx[k] == i by {
                if i == m {
                    assert(false);
                }
            }
            assert(days_at(ts, q, n, rows, pidx));
        }
    }
}

/// The day rows to store from a chart reply: one per timestamp, in order,
/// dated by the timestamp's UTC day, with the values of each column at that
/// position; rows whose open, close, high and low are all missing are
/// skipped.
pub fn daily_rows<P: Copy>(timestamps: &Vec<i64>, quote: &YahooQuote<P>) -> (r: Vec<Daily<P>>)
    ensures
        r@.map_values(|d: Daily<P>| daily_view(d)) == kept_rows(
            timestamps@,
            *quote,
            timestamps.len() as nat,
        ),
        exists|idx: Seq<int>|
            {
                &&& idx.len() == r.len()
                &&& forall|k: int| 0 <= k < idx.len() ==> 0 <= #[trigger] idx[k] < timestamps.len()
                &&& forall|k: int, j: int|
                    0 <= k < j < idx.len() ==> #[trigger] idx[k] < #[trigger] idx[j]
                &&& forall|k: int|
                    0 <= k < r.len() ==> {
                        &&& (#[trigger] r@[k]).date@ == unix_utc_date(timestamps@[idx[k]])
                        &&& r@[k].open == (if quote.open is Some && 0 <= idx[k] < quote.open->0.len() { quote.open->0@[idx[k]] } else { None })
                        &&& r@[k].high == (if quote.high is Some && 0 <= idx[k] < quote.high->0.len() { quote.high->0@[idx[k]] } else { None })
                        &&& r@[k].low == (if quote.low is Some && 0 <= idx[k] < quote.low->0.len() { quote.low->0@[idx[k]] } else { None })
                        &&& r@[k].close == (if quote.close is Some && 0 <= idx[k] < quote.close->0.len() { quote.close->0@[idx[k]] } else { None })
                        &&& r@[k].volume == (if quote.volume is Some && 0 <= idx[k] < quote.volume->0.len() { quote.volume->0@[idx[k]] } else { None })
                        &&& priced_at(*quote, idx[k])
                    }
                &&& forall|i: int|
                    0 <= i < timestamps.len() && priced_at(*quote, i) ==> exists|k: int|
                        0 <= k < idx.len() && #[trigger] idx[k] == i
            },
{
    let mut out: Vec<Daily<P>> = Vec::new();
    let mut i: usize = 0;
    while i < timestamps.len()
        invariant
            i <= timestamps.len(),
            out@.map_values(|d: Daily<P>| daily_view(d)) == kept_rows(
                timestamps@,
                *quote,
                i as nat,
            ),
        decreases timestamps.len() - i,
    {
        let open = column_value(&quote.open, i);
        let high = column_value(&quote.high, i);
        let low = column_value(&quote.low, i);
        let close = column_value(&quote.close, i);
        let volume = column_value(&quote.volume, i);
        let ghost before = out@;
        if !(open.is_none() && close.is_none() && high.is_none() && low.is_none()) {
            let date = utc_date_of(timestamps[i]);
            out.push(Daily { date, open, high, low, close, volume });
            proof {
                assert(out@.map_values(|d: Daily<P>| daily_view(d)) =~= before.map_values(
                    |d: Daily<P>| daily_view(d),
                ).push(row_view(timestamps@, *quote, i as int)));
            }
        }
        i = i + 1;
    }
    proof {
        let n = timestamps.len() as nat;
        stored_rows_are_the_priced_days(timestamps@, *quote, n);
        let rows = kept_rows(timestamps@, *quote, n);
        let idx = choose|idx: Seq<int>| days_at(timestamps@, *quote, n, rows, idx);
        assert forall|k: int| 0 <= k < out.len() implies {
            &&& (#[trigger] out@[k]).date@ == unix_utc_date(timestamps@[idx[k]])
            &&& out@[k].open == (if quote.open is Some && 0 <= idx[k] < quote.open->0.len() { quote.open->0@[idx[k]] } else { None })
            &&& out@[k].high == (if quote.high is Some && 0 <= idx[k] < quote.high->0.len() { quote.high->0@[idx[k]] } else { None })
            &&& out@[k].low == (if quote.low is Some && 0 <= idx[k] < quote.low->0.len() { quote.low->0@[idx[k]] } else { None })
            &&& out@[k].close == (if quote.close is Some && 0 <= idx[k] < quote.close->0.len() { quote.close->0@[idx[k]] } else { None })
            &&& out@[k].volume == (if quote.volume is Some && 0 <= idx[k] < quote.volume->0.len() { quote.volume->0@[idx[k]] } else { None })
            &&& priced_at(*quote, idx[k])
        } by {
            assert(rows[k] == daily_view(out@[k]));
        }
    }
    out
}

/// What a chart reply yields: nothing when it has no timestamps or no quote,
/// or an empty list of timestamps; otherwise its day rows.
pub fn chart_rows<P: Copy>(timestamps: &Option<Vec<i64>>, quote: &Option<YahooQuote<P>>) -> (r:
    Option<Vec<Daily<P>>>)
    ensures
        match (timestamps, quote) {
            (Some(ts), Some(q)) => if ts.len() == 0 {
                r is None
            } else {
                r matches Some(rows) && rows@.map_values(|d: Daily<P>| daily_view(d))
                    == kept_rows(ts@, *q, ts.len() as nat)
            },
            _ => r is None,
        },
{
    match (timestamps, quote) {
        (Some(ts), Some(q)) => {
            if ts.len() == 0 {
                None
            } else {
                Some(daily_rows(ts, q))
            }
        },
        _ => None,
    }
}

/// The latest close of a symbol's history (ordered by date): the close of
/// the last day, if there is a day and it has a close.
pub fn latest_close<P: Copy>(data: &Vec<Daily<P>>) -> (r: Option<P>)
    ensures
        r == (if data.len() == 0 {
            None
        } else {
            data@.last().close
        }),
{
    if data.len() == 0 {
        None
    } else {
        data[data.len() - 1].close
    }
}

/// Every stored day has at least one of open, high, low and close, and no
/// more days are stored than the reply has timestamps.
pub proof fn stored_rows_have_prices<P>(ts: Seq<i64>, q: YahooQuote<P>, n: nat)
    ensures
        kept_rows(ts, q, n).len() <= n,
        forall|k: int|
            0 <= k < kept_rows(ts, q, n).len() ==> {
                let row = #[trigger] kept_rows(ts, q, n)[k];
                row.1 is Some || row.2 is Some || row.3 is Some || row.4 is Some
            },
    decreases n,
{
    if n > 0 {
        stored_rows_have_prices(ts, q, (n - 1) as nat);
        let prev = kept_rows(ts, q, (n - 1) as nat);
        if row_kept(q, n - 1) {
            assert forall|k: int| 0 <= k < kept_rows(ts, q, n).len() implies {
                let row = #[trigger] kept_rows(ts, q, n)[k];
                row.1 is Some || row.2 is Some || row.3 is Some || row.4 is Some
            } by {
                if k < prev.len() {
                    assert(kept_rows(ts, q, n)[k] == prev[k]);
                }
            }
        }
    }
}

} // verus!
