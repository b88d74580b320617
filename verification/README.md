# wayfinder

A mesh networking core in verified Rust: link framing, a BATMAN-style routing
engine, the link formats of several radios, membership credentials, and the
decisions of the drivers and clients around them. The functions of the library
state in contracts what they return and change, and Verus proves it. Where chance
or a collaborator decides, the contract says what holds whatever was decided.

- `src/frame.rs`, `src/wire.rs`, `src/link.rs`, `src/codec.rs`: frames, addresses
  and byte layouts.
- `src/batman/`: the routing engine. `model.rs` says what each event does to the
  engine's state, `laws.rs` what follows across events, and `runs.rs` what holds
  over whole runs.
- `src/frag.rs`, `src/reassembly.rs`: splitting frames and putting them together.
- `src/ieee802154.rs`, `src/at86rf233.rs`, `src/nrf_ieee802154.rs`, `src/blue/`,
  `src/rylr998/`: the radios, and a simulated LoRa module and air.
- `src/auth/`: keys, certificates, revocations and frame tags, over the
  cryptographic crates.
- `src/driver_core/`, `src/runner.rs`, `src/client/`: what drivers, the router and
  the management client decide.
- `src/bounded.rs`: fixed-capacity storage over `heapless`.
- `app/`: the I/O around the library.

What rests on other crates without proof stands in `src/bounded.rs`,
`src/auth/crypto.rs` and `src/text.rs`, each item with what it claims.
