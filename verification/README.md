# security_api

A daily collector of Taiwan securities data: it keeps a trading calendar,
schedules the day's jobs, reads the TWSE listing page into a listing table,
turns it into one price request per security, fetches the month's closing
prices from TWSE and TPEx, and computes price statistics (mean, highest and
lowest with their means) over each security's history.

## Layout

- `src/` — the library, verified with Verus:
  - `text.rs`, `fmt.rs` — character-level parsing, replacement, trimming,
    comparison and the `{:0width}` rendering of integers.
  - `decimal.rs` — exact decimals (`unscaled × 10^-scale`, of any size), their order, and the
    mean rounded away from zero to four places.
  - `records.rs` — the table rows and their log texts.
  - `calendar.rs` — open days of a month, their numbering, and the calendar
    rows planned from them.
  - `query.rs` — the SQL text of the filtered reads.
  - `scrape.rs` — locating and reading the listing table of the page.
  - `exchange.rs` — the month's closing prices kept from an exchange reply.
  - `prices.rs` — price rows from kept replies, and the statistics.
  - `tasks.rs` — the day's fetch tasks: merge order, numbering, seeds, pacing,
    and the run's steps.
  - `daily.rs` — job codes, statuses, per-month locks, keys and patterns.
  - `backup.rs` — whether today's dumps exist, and the `pg_dump` arguments.
- `tests/` — tests of the library on concrete values.
- `app/` — the program around the library: command line, logging, PostgreSQL
  access, HTTP requests, waiting and retrying, and `pg_dump`.
