# shredstream_proxy

A proxy that receives shreds from several providers, drops duplicates, forwards the rest to a list
of destinations, and measures how much earlier one provider delivers than another.

`src/` is the library, verified with Verus:

- `tracker`, `histogram`, `retention`: the lag between a shred's first arrival and its duplicates,
  by pair of sources; how long first sightings last and what the histograms account for.
- `packet`, `forwarder`: deduplication, what is sent on, and the counts of packets and sends.
- `metrics`, `datapoint`: the counters and the samples that are reported.
- `destinations`: the union of discovered and configured endpoints.
- `control`: what each thread does on what it hears.
- `addr`, `clock`: addresses and times as plain values.
- `bindings`: the calls into other crates, with what is believed of them.

The state that threads share is changed through `&mut`, so one thread at a time observes or rotates;
`app/`, the threads around the library, keeps it behind locks. Counters and deadlines wrap at
64 bits.

`tests/` runs the library with the real crates.
