# mmq

`mmq` looks up IP addresses and hostnames in MaxMind MMDB (GeoIP2) databases
and prints what each database holds for them.

Layout:

- `src/` is the verified library:
  - `text.rs`: substring search, splitting, joining, padding and decimal
    rendering, each stated over sequences of characters;
  - `table.rs`: tables keyed by text, each key once, inserting in place;
  - `lookup.rs`: classifying a database by the type its metadata names, the
    set of opened databases keyed by path, and running checks and lookups
    over all of them in order;
  - `records.rs`: the records a lookup yields as plain values, and the result
    that keeps, for each kind of database, the record that the last one of
    that kind to find one found;
  - `display.rs`: the labelled fields of a result and the styled lines of the
    report for an address;
  - `command.rs`: the number of worker threads.
- `app/` is the command line program: arguments, resolving hosts, reading the
  database files and looking addresses up with the `maxminddb` crate,
  converting its records, running the lookups on a thread pool and writing
  the styled lines to the terminal.
- `tests/` exercises the library on concrete values.
