# stock_tracker

A small web app that tracks daily stock prices and a portfolio. The logic that
does not depend on floating-point arithmetic or I/O lives in `src/` and is
verified with Verus:

- `text`: white space, trimming, upper-casing and the symbol rule.
- `forms`: the symbol taken from the two submitted forms.
- `url`: percent-encoding of symbols and the chart request address.
- `clock`: when cached data is stale, and the seven-day window of the overview.
- `quotes`: the day rows kept from a chart reply, and the latest close.
- `overview`: the recent changes of a symbol and the overview table.
- `holdings`: the per-symbol price cache of the portfolio page.
- `numfmt`: thousands grouping and signs for displayed amounts.

`app/` holds the server: routes (axum), the SQLite store (rusqlite), the chart
fetch (reqwest), templates (minijinja) and the float arithmetic on prices.
The templates are read from a `templates/` directory at run time.
