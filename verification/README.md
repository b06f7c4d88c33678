# talkkeeper_audio

The logic of a meeting recorder: taking two sources apart in time, deciding whose voice is
heard, keeping and recovering recordings, and transcribing them again. It is written in Verus;
every function of the library states what it returns or changes, and the statement is proved.

- `src/` is the library. Files, devices, processes and the network do not occur in it: what
  alternates with them is a state machine that takes an event and says what to do next.
- `tests/` run the library on concrete values.
- `app/` is ordinary Rust around it: input and output, floating-point signal processing, and
  the loops that carry out what the state machines say. What belongs to other parts of the
  application is reached through the traits in `app/ports.rs`.

Moments and lengths are whole nanoseconds (`MS` is a millisecond). Samples are of any type that
can be copied; the library moves them and never computes with them, but for the splitting of
long speech, which works on full-scale integers. Values that the library only carries through,
such as a confidence, are held by their bits.

Paths are texts; a backslash separates in those that are written as on Windows. The outside crates in use are `chrono`, `dirs`,
`serde_json`, `sha2` and `uuid`; each call stands in a small function whose contract is believed
and whose comment says what is claimed.
