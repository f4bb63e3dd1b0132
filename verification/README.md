# netscope

A packet-capture and traffic-analysis library with a rule engine, written in
Verus: the logic is executable Rust whose behaviour is stated in `requires` /
`ensures` contracts and proved.

## Layout

- `src/` — the verified library.
  - `protocol/` — slicing frames (through `etherparse`) and decoding packets
    into metadata and layered detail (Ethernet, VLAN, IP, TCP/UDP/ICMP, HTTP,
    DNS, TLS).
  - `filter/` — the display-filter language: tokenizer, parser, evaluation.
  - `rule/` — detection rules: the expression grammar and parser, the printer,
    the engine with rate limits, conflict detection, rule management with
    versions and groups, statistics, response actions and the ban list.
  - `capture/`, `session/`, `stream/`, `stats/` — the packet store and marks,
    session tracking, TCP stream reassembly and running statistics.
  - `pcap_io/` — reading and writing PCAP files as bytes.
  - `replay/` — attack patterns, traffic generation and replay through the
    rule engine.
  - `tls/`, `views.rs`, `templates.rs` — key-log reading, hex dumps and
    timelines, capture templates.
- `tests/` — tests of the library on concrete values.
- `app/` — the unverified shell: threads, files, the network, timers and
  the serde copies of the library's types.

Calls into outside crates and into the parts of std that Verus does not know
stand behind small trusted wrappers, each with a doc comment naming the
outside function and what its contract claims.
