# nagametv

The playback logic of a broadcast TV viewer, verified with Verus: live time-shift
retention, clock indexing of transport streams, the live timeline and its seeks, the
transport state machine, byte-range HTTP reading, audio routing and choices, and the
validated settings around them.

## Layout

- `src/` — the verified library. Each module states its behaviour in `requires` /
  `ensures` over spec functions and views; several laws are public proof functions, and
  others stand in the `ensures` of the functions they are about.
  - `index` — the PCR clock of a service and its anchors; `schedule` — program
    boundaries the broadcast schedule marks on that clock; `survey` — bounded endpoint
    discovery and interpolation search in files.
  - `store`, `slots`, `packet_tail` — retained stream bytes in memory or on disk, their
    disk slots, and packets split across reads.
  - `live`, `projection`, `presenter` — the receive-time program history, the timeline
    projected from it, and one presentation session of that timeline.
  - `timeline`, `supply`, `speed`, `session` — the transport controller (seek, pause,
    live edge, expiry recovery), data-limited fast playback, rates, and which controls a
    source offers.
  - `input` — windows, seek anchors, reader feedback, output chunking and reconnection;
    `comments` — the stretches of stream time a comment service is told about.
  - `http`, `recording`, `loader` — verified byte ranges, recording locations and
    inspection, and one-at-a-time inspection workers.
  - `audio`, `audio_components`, `streams`, `routing`, `aac` — audio choices, defaults
    and side choices, PMT component tags, the stream catalog and its selection, dual-mono
    routing, and the ADTS guard.
  - `settings`, `limits`, `diagnostics`, `platform`, `video`, `text` — validated settings
    and budgets, failure guidance and warning counts, dialog backends, interlacing state,
    and the text rules they share.
- `tests/` — tests of the library on concrete values.
- `app/` — ordinary Rust around the library: environment and saved settings, floating
  point conversions, the anonymous history file, the HTTP transport and worker threads.
