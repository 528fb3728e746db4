# codex_nim_proxy

A proxy that lets a client of the Responses API talk to a provider that only
knows Chat Completions. Every request, a chat request too, goes to one configured
backend model; the answer to a Responses request carries the model name that the
client used.

- `src/` is the library, verified with Verus:
  - `translate` turns requests into chat requests, and chunks of an answer into
    events; its `*_laws` modules state what holds of every request and every
    stream,
  - `sse` reads and ends streams of events,
  - `server` decides what is answered,
  - `catalog`, `config` and `rate_limit` hold the models, the configuration and
    the limit on requests,
  - `json`, `text` and `ids` are what the rest is built on. They hold every item
    that is believed without proof: the calls into `serde_json`, and a few into
    the standard library.
- `tests/` runs the library on examples.
- `app/` is the program: the command line, the HTTP server and client, and the
  tasks around the library.
