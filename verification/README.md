# portfolio_pricer

Prices a portfolio of instruments day after day from historical quotes and
writes its indicators as CSV files, an ODS spreadsheet or the import files of
Portfolio Performance.

- `src/` is the library, verified with Verus: calendar dates and their
  arithmetic (through `chrono`), the cache of historical quotes in front of a
  requester and a persistence, the Yahoo chart answer's reading, the reading
  of the referential's JSON documents, the referential cache, the
  chronological order of trades and quotes, and the pricing decisions (which
  periods to fetch, which days a portfolio is priced, heat-map periods,
  running-P&L periods and windows, the distribution groups, the selection of
  a position's pricings, what the reports show).
- `app/` is the program around it: command line, files, SQLite, the network
  request to Yahoo Finance, and the floating-point indicators.
- `tests/` exercises the library.
