# skiplagging

A verified library for hidden-city and separate-ticket airfare search. A hidden-city
fare is a ticket A→B→C that the traveller leaves at B because it costs less than the
honest A→B fare. The library decides which fares are hidden-city, honest or
separate-ticket, ranks and stitches them, prices them in US cents, builds booking links,
learns route statistics from each search, and plans the order in which a search and the
overnight deal scan do their work. Every function in `src/` carries a Verus contract
and is proved against it.

## Layout

- `src/` is the verified library. Money is in US cents (`i64`), percentages are in
  hundredths or tenths, and times are seconds and nanoseconds.
  - `hidden`, `classify`, `picks`, `self_transfer`, `hubs`, `risk` and `window` decide and rank fares.
  - `fx`, `budget`, `learn` and `route_store` convert prices, cap paid supplier calls,
    learn from a batch and fold it into stored rows.
  - `planner`, `transfer_scan` and `discover` are the state machines of a search, of its
    self-transfer shopping and of the deal scan.
  - `places` and `airport_search` score and rank airports for a query; `ingest` and
    `countries` read the reference data formats and build the airport, country,
    continent and region tables.
  - `deal_hits` is the comparison step of the deal scan: which through tickets are
    deals, and the deal records.
  - `bookers` and `links` build booking links.
  - `duffel` builds the Duffel offer request (slices, passengers, cabin and the
    connection limit), picks the USD amount an offer already carries, and reads a
    Duffel offer, given as plain values, into the library's offer.
  - `laws` states properties that span several functions, each proved.
- `tests/` holds the tests.
- `app/` is the command-line front end and a small HTTP server (`/health`, and
  `/search`, checked by the library before it runs). It does file and network I/O (the Duffel
  offer request and the Frankfurter exchange rates, encoded and decoded as JSON),
  runs the state machines against the mock supplier, and holds the floating-point
  scores (candidate scoring and hub probabilities).

Calls into outside crates go through small trusted wrappers, each documented with
what it claims. The crates called this way are `chrono`, `unicode-normalization`,
`urlencoding`, `base64` and `csv`.
