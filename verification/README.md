# fleet_api

A telemetry service for a fleet of nodes: nodes post measurements with a signed token, readers
ask for the history of the last hours, and measurements older than two weeks are pruned.

The library in `src/` is verified with Verus:

- `auth`: the bearer token of a request, and the decision whether the request is let through;
- `token`: what a token carries, down to the claims about its owner;
- `headers`: header fields, and those that open an answer to browsers of any origin;
- `ingest`: storing a measurement under a new key;
- `history`: the time window of a request, and measurements grouped by node;
- `retention`: which measurements are pruned, and what is reported of it;
- `store`: the statements for the telemetry table, and the way a measurement lies in a row;
- `clock`, `health`, `numbers`, `status`, `telemetry`, `text`: what these are built from.

What Verus takes on trust stands next to its use, in `clock`, `headers`, `ingest`, `auth`
and `token`: the system clock, header maps, random keys, the checking of signatures, and JSON.

The program in `app/` holds the server, the database and the JSON forms. It expects
`public_key.pem` (the Ed25519 key that tokens are checked with), the directory `migrations` and
the database `telemetry.db` in its working directory. Started with the argument `core` it answers
health probes only.
