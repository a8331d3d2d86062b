# confish

The confish SDK: typed configuration, feeds, logs, actions and webhook
verification for the confish API.

- `src/` is the verified library (Verus). It holds the logic of the SDK:
  webhook signature checking (`webhook`), RFC 3339 timestamps and the civil
  calendar (`tracing_layer`, `calendar`), request paths and external-ID
  percent-encoding (`paths`, `feeds`), the classification of error responses
  (`error`), the retry policy (`http`), the consumer's backoff and action
  selection (`actions`), batch rules (`logs`), and the time spans and decimal
  text they rest on (`time`, `text`).
- `app/` is the asynchronous client around it: the `reqwest` transport, JSON
  with `serde`, the tokio consumer loop and the `tracing` layer.
- `tests/` exercises the library.
