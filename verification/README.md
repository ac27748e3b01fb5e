# pdu_exporter

A Prometheus exporter for power distribution units (PDUs) that expose their
status as a `?`-separated field list at `/status.cgi`.

The library under `src/` is verified with Verus:

- `pdu::client` builds the status address and splits an answer into fields;
- `pdu::metrics` renders the fields as Prometheus text (gauges sorted by
  name, samples sorted within each gauge);
- `pdu::handler` lists unit names, rack names and units grouped by rack;
- `config` and `config::parser` hold the configuration, its defaults and
  the reading of the YAML text (through `serde_yaml`) and command line;
- `auth::basic_auth` decides basic authentication against bcrypt hashes,
  with a cache of keyed BLAKE3 digests of credentials that passed;
- `text`, `sort` and `string_map` are the text, sorting and map primitives
  the rest is built on.

`app/` is the HTTP server around it: axum routes and middleware, the reqwest
client, configuration reloading, signals, the serde copy of the
configuration file, and the floating point formatting of values.
