# ticker_poc

A ticker-driven backend for a building game. Workers build blueprints one
step per tick and can be started, paused, resumed and cancelled; shards host
a bounded number of workers; the Dagda controller places tasks on shards,
ticks them, and answers control requests on behalf of the players who own
the workers.

- `src/` is the verified library:
  - `dagda/shard.rs`: worker lifecycle and shards, with the laws of ticking;
  - `dagda/controller.rs`: the controller's state, its request handling and its laws;
  - `library.rs`: the blueprint catalogue;
  - `model.rs`: blueprints as workers carry them;
  - `api.rs`: the parent identity carried by a request;
  - `ids.rs`: UUID generation and parsing (the `uuid` crate).
- `app/` is the HTTP server, the event loop with its channels and ticker,
  Prometheus metrics, and reading the catalogue from disk.
- `tests/` exercises the library on concrete values.
