# rcan_testing

Capability-based authentication between iroh endpoints with rcans.

`src/` is the verified library:

- `caps`, `capset`: capabilities, capability sets kept in increasing order,
  the permission rules (with their laws: transitivity, monotonicity, `All`
  permits everything), the fixed sets the service hands out, and the plan for
  issuing a new rcan.
- `text`: string and key comparison, ASCII case, and the token text form
  (lower-case unpadded base32) with its round-trip properties.
- `token`: what the library reads of an rcan (issuer, audience, capabilities,
  expiry).
- `id_store`: the store of known endpoints, the requests it answers, and the
  rule for recording a newly authenticated endpoint.
- `auth`, `connect`, `irpc`: the decisions of the authentication service, the
  client's login, and the editor service.
- `capstack`, `id_db`, `repl`: small pieces of the remaining modules.

`app/` is the program around it: the iroh endpoint and protocols, the actor
and its channels, serde forms of the library types, configuration files and the
command line.
