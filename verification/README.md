# yundrone_ble

A Bluetooth Low Energy client library for the YunDrone command gateway, with its
behaviour stated as Verus contracts and proved.

The gateway is a headless Linux device that a workstation configures over BLE: Wi-Fi
scan and provisioning, system status and saved Wi-Fi profiles. Requests and responses
are JSON documents carried in compact binary frames of at most twenty bytes.

## Layout

- `src/` — the verified library.
  - `transport.rs`: the V2 frame format, payload fragmentation and reassembly.
  - `response.rs`, `receipt.rs`, `session.rs`: response decoding with range and event
    acknowledgements, and the decisions taken for each notification and request attempt.
  - `protocol.rs`, `json.rs`, `json_codec.rs`, `responses.rs`: the command schema and its
    wire form.
  - `chunking.rs`, `chunk_plan.rs`: the JSON-level chunk path kept for compatibility:
    assembling `response_json` and legacy chunks, and planning how a large response is cut.
  - `discovery.rs`, `scan.rs`: which advertisements are gateways, and live scan bookkeeping.
  - `gui_model.rs`, `gui_reducer.rs`, `gui_panels.rs`, `action_text.rs`: the desktop
    client's state, how events change it, and what its panels show.
  - `worker_state.rs`, `worker_events.rs`, `worker_flow.rs`, `worker_loop.rs`: the
    Bluetooth worker's bookkeeping and the events it reports.
  - `trace.rs`, `trace_box.rs`, `debug_text.rs`, `redaction.rs`: trace and probe output,
    with secrets masked.
  - `cli_text.rs`, `cli_requests.rs`, `wifi_rows.rs`, `runtime.rs`, `text.rs`, `bytes.rs`:
    terminal texts, request building, Wi-Fi table rows, launch helpers and text utilities.
- `tests/` — tests of the library on concrete values.
- `app/` — the command-line client: Bluetooth I/O through btleplug, JSON through serde,
  terminal prompts and tables.

Verify with Verus; the tests run with `cargo test`.
