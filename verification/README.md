# config_generator

A verified library for turning a proxy scanner's daily report into proxy
configurations and share links, and for publishing the results of testing them.

- `src/text.rs` — searching, splitting, trimming, decimal numbers, joining and
  line splitting over characters, each specified over `Seq<char>`.
- `src/scan.rs` — which report lines announce a live proxy, the address,
  response time and location on such a line, and IPv4 address checks.
- `src/generator.rs` — the six configurations made for an address (VLESS,
  VMess and Trojan over WebSocket, TCP or gRPC) and their `vless://`,
  `vmess://` and `trojan://` links.
- `src/tester.rs` — what a reachability probe's outcome is recorded as, and
  the statistics of a test run.
- `src/output.rs` — the published entries, the base64 subscription, the text
  of the published files (links, statistics, markdown report), subscription
  URLs and QR code pages.
- `src/decoding.rs` — standard base64 decoding as a specification, with the
  proof that it undoes the encoding (used for the subscription and VMess laws).
- `src/trusted.rs` — the calls into std, `rand`, `uuid`, `urlencoding`,
  `base64`, `serde_json`, `chrono` and `qrcode`, each with the contract the
  library relies on.
- `app/` — the program: reading the report, probing over the network with
  `tokio`, computing and formatting the floating-point statistics, writing the files.
