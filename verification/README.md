# trillium_bench

The verified core of a set of trillium benchmark servers (a production server, a tuned server
and a TLS reverse proxy).

- `src/escape.rs` — HTML escaping with named entities, with the laws that escaping distributes
  over concatenation, leaves no markup characters, and reads back to the text it came from;
  and the escaped write into a destination that may refuse a piece (`EscapedWrite`), which
  hands out the pieces in order, stops at the first refusal, and has written a prefix of the
  escaped text whenever it stops.
- `src/order.rs` — the byte-wise order messages are sorted by, and its order laws.
- `src/fortunes.rs` — the stable sort of fortunes by message, the additional fortune, and the
  reply the fortunes handler gives for each database outcome.
- `src/settings.rs` — unsigned decimal numbers read as `str::parse` reads them, and the settings
  and defaults taken from the environment.
- `src/layout.rs` — listeners, proxy runtimes, HTTP tuning, upstream ALPN and the route table.
- `src/state.rs` — the dataset's items and the CRUD cache entries.

`app/` holds the programs themselves: reading the environment and files, binding sockets,
building trillium handlers, querying postgres and rendering the page.
