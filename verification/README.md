# dns_secheck

A check of whether a network lets traffic on port 53 through unfiltered: a
client sends arbitrary data and DNS queries to a server that answers them and
records what reached it under a test key.

- `src/` is the library, verified with Verus: base32 encoding of the test key
  into a DNS name and back (`util::base32`, `dns_protocol`), recognition of DNS
  queries framed for TCP, decoding and answering DNS requests, the server's
  answer to plain `key:ping` messages (`net`), the evaluation of system
  lookups and DNS answers (`dns`), and the records kept per key (`util`).
- `tests/` runs the library on concrete values.
- `app/` holds the two programs around it (the client and, with `server` as
  first argument, the server): sockets, HTTP, the resolver and DNS client, the
  report cache, and JSON.
