# broker_benchmarker

A benchmark of message brokers (Redpanda, Kafka, NATS, gRPC) whose logic is verified with Verus.

- `src/` is the verified library: settings, the sharing of bandwidth between streams, pacing, the
  message format, loss and latency statistics, result files and the report. Every function states
  what it computes; proof functions named `law_...` state what holds across functions.
- `tests/` runs the library on concrete values.
- `app/` is the program around it: connections, files, the environment, and numbers that are
  printed with decimal places.

Amounts that are fractions by nature are kept exact: the throughput target and the message rates are
quotients of whole numbers (`ratio::Ratio`). Figures that are rounded as floating-point numbers come
from the program as text or as whole numbers.

| Module | What it holds |
|---|---|
| `config`, `text` | settings from environment variables, numbers as text |
| `target`, `ratio`, `allocation`, `streams` | the target, water-filling, message sizes, topics, stream ids, partitions |
| `pacing`, `payload`, `plan` | tick intervals and batches, the send loop, payloads, producer tasks |
| `clock`, `message` | timestamps, the header of a message |
| `latency`, `stats`, `loss`, `table`, `by_id`, `session` | what a consumer finds out |
| `summary`, `csv`, `report` | figures, result file, report |
