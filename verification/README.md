# compression_pool

Distributed video compression: a `head` coordinator scans a folder of
videos and hands CRF searches (`ab-av1`) and encodes (`ffmpeg`) to `worker`
servers, then publishes the results.

The decisions are a Verus-verified library (`src/`); the program around it
(`app/`) does the HTTP, file and process work.

- `src/text.rs` — characters, lines, decimal numbers, string order.
- `src/paths.rs` — file-name and container rules, output names, collisions.
- `src/crf.rs` — reading a CRF out of ab-av1 output.
- `src/config.rs` — settings, argument splitting, quality detection.
- `src/types.rs` — the messages between head and worker.
- `src/cmd/head/` — work queues (encode priority, worker affinity), worker
  addresses, and the head's decisions (scheduling, adoption, resending,
  retries, what a result asks for).
- `src/cmd/worker/` — the worker's bookkeeping: capacity reservation,
  idempotent requests, results, downloads and clean-up.
- `tests/` — the library's tests.
- `app/` — `main`, the HTTP client and server, process runs and file I/O.
