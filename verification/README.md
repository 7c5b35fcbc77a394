# rpc — relay partition checking

Tools for checking whether Tor relays can reach each other, by building
two-hop circuits between randomly chosen relays, and for reading the circuit
measurements that OnionPerf publishes.

- `src/` is the verified library (Verus):
  - `partition.rs`: the grid of relay pairs, each worker's share of the chosen
    relays, and the circuit attempts a worker makes;
  - `log_data.rs`: the record of one attempt and its CSV line;
  - `onion_perf.rs`: the OnionPerf data model, the address of each host's
    analysis file, decompression, and the sorting of circuits into failed and
    successful ones;
  - `clock.rs`: UTC instants as nanoseconds since the epoch, read from the
    system clock and rendered by chrono;
  - `calendar.rs`: the proleptic Gregorian calendar as day numbers, with the
    laws that tie dates to days (previous day, order);
  - `text.rs`: decimal rendering and character filtering.
- `app/` is the command-line program: arguments, downloads, files, threads and
  the Tor client.
- `tests/` runs the library on concrete values.

## Behaviour

- The pair grid leaves the first relay out on both sides: rows and columns
  start at the second relay, and a relay is paired with itself.
- The analysis file fetched is always that of the UTC calendar day before the
  current one, at any time of day.
- Only circuits with a path are sorted: a path and a local failure reason make
  a failed circuit, a path without one a successful circuit; circuits without
  a path are in neither list.
- The survey of all hosts prints the totals and keeps every host, in order.
- Times are held as chrono holds them, from -262143-01-01 to 262142-12-31 UTC.
