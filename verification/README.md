# rsudp_rust

A seismic station monitor for Raspberry Shake style stations: it receives
MiniSEED data over UDP (or reads it from a file), decodes it, watches an
STA/LTA trigger and the JMA seismic intensity, forwards data and alarms to
other hosts, and reports RSAM amplitudes; the library also holds the
batching and deduplication of relayed samples.

The crate has two parts.

- `src/` is a library whose functions carry Verus contracts and are proved
  against them: MiniSEED header and record parsing, Steim2 decompression,
  the playback order of a file's records, StationXML text extraction,
  channel routing for forwarding and intensity, the trigger's window and
  alarm state machine, batching and deduplication of relayed samples, the
  alert history, request checking, notification routing and message texts,
  the alert state of the Hue lights, the binary frames of the live stream,
  and the configuration sections with their defaults. Laws that relate
  several functions (such as how records concatenate, or that nothing is
  lost while a batch is gathered) are stated and proved as `proof fn`s next
  to the functions they speak of.
- `app/` is the program around it: command line, configuration files,
  sockets and tasks, and the real-valued signal processing (filters,
  STA/LTA ratio, intensity, RSAM statistics, response removal), which Verus
  does not reason about.

`tests/` exercises the library from outside, including concrete instances of
the laws.
